use pomodoro_tui::settings::{Config, Theme};

fn names(c: &Config) -> Vec<String> {
    c.acts.clone()
}

#[test]
fn defaults_are_written() {
    let c = Config::new();
    assert_eq!(c.to_text(), "break_mins=5\nnotifications=true\ntheme=Cyan\nvolume=50\n");
    assert_eq!(c.acts.len(), 4);
    assert_eq!(c.acts[0], "Studying \u{1F4DA}");
}

#[test]
fn settings_are_read_back() {
    let mut c = Config::new();
    c.break_mins = 12;
    c.notifications = false;
    c.theme = Theme::Yellow;
    c.volume_pct = 35;
    c.acts.push("Actuary Exam".to_string());
    c.acts.push("a=b".to_string());
    let text = c.to_text();
    assert_eq!(
        text,
        "break_mins=12\nnotifications=false\ntheme=Yellow\nvolume=35\nactivity=Actuary Exam\nactivity=a=b\n"
    );
    let mut d = Config::new();
    d.apply_text(&text);
    assert_eq!(d.break_mins, 12);
    assert!(!d.notifications);
    assert_eq!(d.theme, Theme::Yellow);
    assert_eq!(d.volume_pct, 35);
    assert_eq!(names(&d), names(&c));
}

#[test]
fn values_are_kept_in_range() {
    let mut c = Config::new();
    c.apply_text("break_mins=0\nvolume=250\n");
    assert_eq!(c.break_mins, 1);
    assert_eq!(c.volume_pct, 100);
}

#[test]
fn bad_lines_are_skipped() {
    let mut c = Config::new();
    c.apply_text("garbage\nbreak_mins=abc\nvolume=-3\ntheme=Purple\nunknown=1\n  notifications = yes \n");
    assert_eq!(c.break_mins, 5);
    assert_eq!(c.volume_pct, 50);
    assert_eq!(c.theme, Theme::Cyan);
    assert!(!c.notifications);
}

#[test]
fn activities_are_added_once_and_trimmed() {
    let mut c = Config::new();
    c.apply_text("activity=  Gym  \nactivity=Gym\nactivity=\nactivity=Coding \u{1F4BB}\r\n");
    assert_eq!(c.acts.len(), 5);
    assert_eq!(c.acts[4], "Gym");
}

#[test]
fn numbers_accept_a_plus_sign() {
    let mut c = Config::new();
    c.apply_text("break_mins=+7");
    assert_eq!(c.break_mins, 7);
    c.apply_text("break_mins=4294967296");
    assert_eq!(c.break_mins, 7);
    c.apply_text("break_mins=4294967295");
    assert_eq!(c.break_mins, 4294967295);
}

#[test]
fn themes_cycle() {
    let mut t = Theme::Cyan;
    let mut seen = Vec::new();
    for _ in 0..5 {
        seen.push(t.name());
        assert_eq!(t.next().prev(), t);
        t = t.next();
    }
    assert_eq!(t, Theme::Cyan);
    assert_eq!(seen, vec!["Cyan", "Magenta", "Green", "Yellow", "Red"]);
    assert_eq!(Theme::Cyan.prev(), Theme::Red);
}

#[test]
fn theme_names_are_read() {
    let red: Vec<char> = "Red".chars().collect();
    assert_eq!(Theme::from_name(&red), Theme::Red);
    let other: Vec<char> = "red".chars().collect();
    assert_eq!(Theme::from_name(&other), Theme::Cyan);
}

#[test]
fn new_activities_follow_in_file_order() {
    let mut c = Config::new();
    c.apply_text("activity=Run\ntheme=Red\nactivity=Gym\nactivity=Run\nactivity=Reading \u{1F4D6}\nactivity=Chess\n");
    let tail: Vec<&str> = c.acts[4..].iter().map(|s| s.as_str()).collect();
    assert_eq!(tail, vec!["Run", "Gym", "Chess"]);
}
