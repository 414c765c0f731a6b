use pomodoro_tui::display::{
    clock_text, download_message, duration_text, help_text, phase_text, resume_info,
    session_count_text,
};
use pomodoro_tui::form::SessionForm;
use pomodoro_tui::pomodoro::{App, Screen};
use pomodoro_tui::settings::default_activities;

#[test]
fn clock_and_durations() {
    assert_eq!(clock_text(125), "2:05");
    assert_eq!(clock_text(1500), "25:00");
    assert_eq!(clock_text(0), "0:00");
    assert_eq!(duration_text(125), "2h 5min");
    assert_eq!(duration_text(45), "45min");
    assert_eq!(duration_text(0), "0min");
    assert_eq!(session_count_text(2, 4), "Session 2 of 4");
}

#[test]
fn help_lines() {
    assert_eq!(help_text(Screen::Timer), " [Space] Pause | [+/-] Vol | [M] Mute | [H/Left] Stop & Menu ");
    assert_eq!(help_text(Screen::Duration), " [Arrows/HJKL] Navigate | [Esc] Back ");
}

#[test]
fn phases() {
    assert_eq!(phase_text(true, true), "\u{23F8} PAUSED");
    assert_eq!(phase_text(false, true), "\u{1F525} FOCUS");
    assert_eq!(phase_text(false, false), "\u{2615} BREAK");
}

#[test]
fn resume_screen_text() {
    let acts = default_activities();
    let text = resume_info(Some("idx=1\ncurrent=2\ntotal=4\nrem=754\nwork=false\n"), &acts);
    assert_eq!(
        text,
        "\n\n\u{23F8}\u{FE0F} Previous session found!\n\nCoding \u{1F4BB} | Break | Session 2 of 4\n12:34 remaining"
    );
    let text = resume_info(Some("idx=9\ncurrent=x\n"), &acts);
    assert!(text.ends_with("Unknown | Focus | Session 0 of 0\n0:00 remaining"));
    let text = resume_info(None, &acts);
    assert!(text.ends_with("Could not read session details."));
}

#[test]
fn presence_status() {
    let mut a = App::new(false, String::new());
    let (s, d) = a.presence_text();
    assert_eq!((s.as_str(), d.as_str()), ("Configuring...", "Main Menu"));
    a.screen = Screen::Timer;
    a.paused = false;
    let (s, d) = a.presence_text();
    assert_eq!(s, "\u{1F525} Focusing: Studying \u{1F4DA}");
    assert_eq!(d, "Session 1 of 4");
    a.work = false;
    assert_eq!(a.presence_text().0, "\u{2615} Taking a Break");
    a.paused = true;
    assert_eq!(a.presence_text().0, "\u{23F8}\u{FE0F} Paused: Studying \u{1F4DA}");
}

#[test]
fn form_fields_shown() {
    let f = SessionForm::for_add(25, 5, "2024".to_string());
    let fields = f.display_fields(&default_activities());
    assert_eq!(fields.len(), 7);
    assert_eq!(fields[0], ("Date".to_string(), "2024-__-__".to_string()));
    assert_eq!(fields[1].1, "< Studying \u{1F4DA} >");
    assert_eq!(fields[2].1, "< 25 min >");
    assert_eq!(fields[4].1, "< 4 >");
    assert_eq!(fields[6].1, "< Yes >");
}

#[test]
fn download_messages() {
    assert_eq!(download_message(Some(Some(true))), "\u{2705} Success! Press ENTER");
    assert_eq!(download_message(Some(None)), "\u{274C} yt-dlp missing");
}

#[test]
fn presence_countdown_ends_with_the_phase() {
    let mut a = App::new(false, "20240305".to_string());
    assert_eq!(a.presence_end(1000), None);
    a.screen = Screen::Timer;
    a.rem = 90;
    a.paused = false;
    assert_eq!(a.presence_end(1000), Some(1090));
    a.paused = true;
    assert_eq!(a.presence_end(1000), None);
}
