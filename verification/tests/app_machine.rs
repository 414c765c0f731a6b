use pomodoro_tui::pomodoro::{bgm_choices, clamp_scroll, App, Effect, Key, PhaseEnd, Screen};

fn app() -> App {
    App::new(false, "20240305".to_string())
}

fn press(a: &mut App, k: Key) -> Vec<Effect> {
    a.handle_key(k, false, false, 0)
}

#[test]
fn starts_on_the_menu_or_resume() {
    let a = app();
    assert_eq!(a.screen, Screen::Activity);
    assert_eq!((a.mins, a.total, a.current, a.rem), (25, 4, 1, 1500));
    assert!(a.paused);
    assert_eq!(a.bgm_list, vec!["None".to_string()]);
    assert_eq!(App::new(true, String::new()).screen, Screen::Resume);
}

#[test]
fn choosing_and_starting_a_session() {
    let mut a = app();
    press(&mut a, Key::Down);
    assert_eq!(a.idx, 1);
    press(&mut a, Key::Enter);
    assert_eq!(a.screen, Screen::Duration);
    press(&mut a, Key::Char('k'));
    assert_eq!(a.mins, 26);
    press(&mut a, Key::Char('l'));
    assert_eq!(a.screen, Screen::Sessions);
    press(&mut a, Key::Down);
    press(&mut a, Key::Down);
    press(&mut a, Key::Down);
    press(&mut a, Key::Down);
    assert_eq!(a.total, 1);
    let fx = press(&mut a, Key::Right);
    assert_eq!(a.screen, Screen::Bgm);
    assert!(matches!(fx[0], Effect::SelectItem(0)));
    let fx = press(&mut a, Key::Enter);
    assert_eq!(a.screen, Screen::Timer);
    assert_eq!(a.rem, 26 * 60);
    assert!(!a.paused && a.work);
    assert_eq!(fx.len(), 3);
    assert!(matches!(fx[1], Effect::SaveTimerState));
    assert!(matches!(fx[2], Effect::PlayBgm));
}

#[test]
fn a_running_timer_counts_down_and_finishes() {
    let mut a = app();
    a.screen = Screen::Timer;
    a.paused = false;
    a.total = 1;
    a.rem = 2;
    let fx = a.on_tick();
    assert_eq!(a.rem, 1);
    assert_eq!(fx.len(), 1);
    let fx = a.on_tick();
    assert_eq!(a.screen, Screen::Activity);
    assert!(a.paused);
    match &fx[0] {
        Effect::SaveTimerSnapshot(t) => assert_eq!(t.rem, 0),
        _ => panic!("first the state is saved"),
    }
    assert!(matches!(fx[1], Effect::LogSession(true)));
    assert!(matches!(fx[4], Effect::Notify(PhaseEnd::AllDone)));
}

#[test]
fn focus_then_break_then_focus() {
    let mut a = app();
    a.screen = Screen::Timer;
    a.paused = false;
    a.rem = 1;
    a.on_tick();
    assert!(!a.work);
    assert_eq!(a.rem, 5 * 60);
    assert!(a.paused);
    assert_eq!(a.current, 1);
    a.paused = false;
    a.rem = 1;
    a.config.notifications = false;
    let fx = a.on_tick();
    assert!(a.work);
    assert_eq!(a.current, 2);
    assert_eq!(a.rem, 25 * 60);
    assert_eq!(fx.len(), 2);
}

#[test]
fn a_paused_timer_does_nothing() {
    let mut a = app();
    a.screen = Screen::Timer;
    assert!(a.on_tick().is_empty());
    assert_eq!(a.rem, 1500);
}

#[test]
fn adding_renaming_and_deleting_an_activity() {
    let mut a = app();
    press(&mut a, Key::Char('a'));
    assert_eq!(a.screen, Screen::AddActivity);
    for c in "  Gym ".chars() {
        press(&mut a, Key::Char(c));
    }
    press(&mut a, Key::Backspace);
    let fx = press(&mut a, Key::Enter);
    assert!(matches!(fx[0], Effect::SaveConfig));
    assert_eq!(a.config.acts[4], "Gym");
    a.idx = 4;
    press(&mut a, Key::Char('e'));
    assert_eq!(a.screen, Screen::RenameActivity);
    assert_eq!(a.input, "Gym");
    for c in ", Run".chars() {
        press(&mut a, Key::Char(c));
    }
    let fx = press(&mut a, Key::Enter);
    assert_eq!(a.config.acts[4], "Gym, Run");
    match &fx[0] {
        Effect::RenameInHistory(old, new) => {
            assert_eq!(old, "Gym");
            assert_eq!(new, "Gym Run");
        },
        _ => panic!("the history is renamed"),
    }
    let fx = press(&mut a, Key::Delete);
    assert_eq!(a.config.acts.len(), 4);
    assert_eq!(fx.len(), 2);
}

#[test]
fn built_in_activities_stay() {
    let mut a = app();
    let fx = press(&mut a, Key::Char('d'));
    assert!(fx.is_empty());
    assert_eq!(a.config.acts.len(), 4);
}

#[test]
fn settings_change_and_are_saved() {
    let mut a = app();
    press(&mut a, Key::Char('s'));
    assert_eq!(a.screen, Screen::Settings);
    press(&mut a, Key::Down);
    let fx = press(&mut a, Key::Left);
    assert_eq!(a.config.theme, pomodoro_tui::settings::Theme::Red);
    assert!(matches!(fx[0], Effect::SaveConfig));
    press(&mut a, Key::Down);
    press(&mut a, Key::Down);
    for _ in 0..10 {
        press(&mut a, Key::Char('h'));
    }
    assert_eq!(a.config.break_mins, 1);
    press(&mut a, Key::Char('q'));
    assert_eq!(a.screen, Screen::Activity);
}

#[test]
fn keys_wait_while_downloading() {
    let mut a = app();
    assert!(a.handle_key(Key::Char('q'), true, false, 0).is_empty());
    let fx = a.handle_key(Key::Enter, true, true, 0);
    assert_eq!(a.screen, Screen::Bgm);
    assert!(matches!(fx[0], Effect::FinishDownload));
    assert!(matches!(fx[1], Effect::RefreshBgm));
}

#[test]
fn form_date_takes_digits_only() {
    let mut a = app();
    a.screen = Screen::History;
    let fx = a.handle_key(Key::Char('a'), false, false, 0);
    assert!(matches!(fx[0], Effect::NewFormEntry));
    assert_eq!(a.screen, Screen::SessionForm);
    a.form.date = "2024".to_string();
    press(&mut a, Key::Char('x'));
    press(&mut a, Key::Char('1'));
    assert_eq!(a.form.date, "20241");
    press(&mut a, Key::Backspace);
    assert_eq!(a.form.date, "2024");
    a.form.date = "20240305".to_string();
    press(&mut a, Key::Char('9'));
    assert_eq!(a.form.date, "20240305");
    press(&mut a, Key::Down);
    press(&mut a, Key::Right);
    assert_eq!(a.form.act_idx, 1);
    let fx = press(&mut a, Key::Enter);
    assert!(matches!(fx[0], Effect::SaveForm(None)));
    assert_eq!(a.screen, Screen::History);
}

#[test]
fn history_deletes_only_shown_entries() {
    let mut a = app();
    a.screen = Screen::History;
    assert!(a.handle_key(Key::Char('d'), false, false, 0).is_empty());
    let fx = a.handle_key(Key::Char('d'), false, false, 2);
    assert!(matches!(fx[0], Effect::DeleteHistoryEntry(0)));
    a.after_history_delete(0);
    assert_eq!(a.history_scroll, 0);
}

#[test]
fn resuming_or_discarding() {
    let mut a = App::new(true, String::new());
    let fx = press(&mut a, Key::Char('y'));
    assert!(matches!(fx[0], Effect::LoadTimerState));
    a.load_timer_state_text("idx=3\nmins=40\nrem=99\nwork=false\n");
    let fx = a.resume(true);
    assert_eq!(a.screen, Screen::Timer);
    assert!(a.paused);
    assert_eq!((a.idx, a.mins, a.rem, a.work), (3, 40, 99, false));
    assert!(matches!(fx[0], Effect::PlayBgm));
    let mut b = App::new(true, String::new());
    let fx = press(&mut b, Key::Esc);
    assert_eq!(b.screen, Screen::Activity);
    assert!(matches!(fx[0], Effect::ClearTimerState));
}

#[test]
fn music_files_are_listed() {
    let names = vec!["a.mp3".to_string(), "b.wav".to_string(), ".mp3".to_string(), "mp3".to_string()];
    assert_eq!(bgm_choices(&names), vec!["None".to_string(), "a.mp3".to_string(), ".mp3".to_string()]);
    let mut a = app();
    a.set_bgm_files(&names);
    assert_eq!(a.bgm_list.len(), 3);
    assert_eq!(a.bgm_to_play(), None);
    a.bgm_idx = 2;
    assert_eq!(a.bgm_to_play(), Some(2));
    a.bgm_idx = 3;
    assert_eq!(a.bgm_to_play(), None);
}

#[test]
fn settings_file_is_loaded_into_the_app() {
    let mut a = app();
    a.load_config_text("break_mins=9\nactivity=Gym\n");
    assert_eq!(a.config.break_mins, 9);
    assert_eq!(a.config.acts.len(), 5);
}

#[test]
fn scroll_is_kept_on_an_item() {
    assert_eq!(clamp_scroll(5, 3), 2);
    assert_eq!(clamp_scroll(1, 3), 1);
    assert_eq!(clamp_scroll(4, 0), 0);
}

#[test]
fn log_line_of_the_timer_session() {
    let mut a = app();
    a.idx = 2;
    a.current = 3;
    assert_eq!(a.session_log_line("2024-03-05", false), "2024-03-05,Deep Work \u{1F9E0},25,5,4,2,No");
}

#[test]
fn mute_and_pause_twice_restore() {
    let mut a = app();
    a.screen = Screen::Timer;
    a.paused = false;
    let fx = press(&mut a, Key::Char('m'));
    assert!(a.muted);
    assert_eq!(fx.len(), 1);
    assert!(matches!(fx[0], Effect::ApplyVolume));
    press(&mut a, Key::Char('m'));
    assert!(!a.muted);
    let fx = press(&mut a, Key::Char(' '));
    assert!(a.paused);
    assert!(matches!(fx[0], Effect::ApplyPause));
    assert!(matches!(fx[1], Effect::SaveTimerState));
    press(&mut a, Key::Char(' '));
    assert!(!a.paused);
    assert_eq!(a.screen, Screen::Timer);
}

#[test]
fn toggles_flip_one_flag() {
    let mut a = app();
    let fx = a.toggle_mute();
    assert!(a.muted && matches!(fx[0], Effect::ApplyVolume));
    a.toggle_mute();
    assert!(!a.muted);
    let was = a.paused;
    let fx = a.toggle_pause();
    assert!(a.paused != was && matches!(fx[0], Effect::ApplyPause));
    a.toggle_pause();
    assert_eq!(a.paused, was);
}
