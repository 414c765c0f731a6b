use pomodoro_tui::form::SessionForm;
use pomodoro_tui::history::{replace_entry, sort_history};
use pomodoro_tui::settings::default_activities;

fn acts() -> Vec<String> {
    let mut a = default_activities();
    a.push("Gym, Outdoor".to_string());
    a
}

#[test]
fn new_form_is_for_today() {
    let f = SessionForm::for_add(30, 6, "20240305".to_string());
    assert_eq!(f.act_idx, 0);
    assert_eq!(f.mins, 30);
    assert_eq!(f.break_mins, 6);
    assert_eq!(f.done, 4);
    assert_eq!(f.planned, 4);
    assert!(f.completed);
    assert_eq!(f.date, "20240305");
    assert_eq!(f.edit_idx, None);
}

#[test]
fn form_line_and_edit_again() {
    let mut f = SessionForm::for_add(30, 6, "20240305".to_string());
    f.act_idx = 4;
    f.done = 2;
    f.planned = 3;
    f.completed = false;
    let line = f.to_line(&acts());
    assert_eq!(line, "2024-03-05,Gym Outdoor,30,6,3,2,No");
    let content = format!("date,activity,duration_mins,break_mins,sessions_planned,sessions_done,completed\n{}\n2024-01-01,Coding \u{1F4BB},25,5,4,4,Yes\n", line);
    let mut g = SessionForm::for_add(25, 5, "20991231".to_string());
    g.cursor = 3;
    g.edit_from_history(&content, 1, &acts());
    assert_eq!(g.date, "20240305");
    assert_eq!(g.act_idx, 4);
    assert_eq!(g.mins, 30);
    assert_eq!(g.break_mins, 6);
    assert_eq!(g.planned, 3);
    assert_eq!(g.done, 2);
    assert!(!g.completed);
    assert_eq!(g.cursor, 0);
    assert_eq!(g.edit_idx, Some(1));
    g.edit_from_history(&content, 0, &acts());
    assert_eq!(g.act_idx, 1);
    assert!(g.completed);
}

#[test]
fn unreadable_fields_take_defaults() {
    let content = "h\n2024-01-01,Nobody,x,y,z,w, Yes\n";
    let mut g = SessionForm::for_add(25, 5, "1".to_string());
    g.edit_from_history(content, 0, &acts());
    assert_eq!(g.act_idx, 0);
    assert_eq!((g.mins, g.break_mins, g.planned, g.done), (25, 5, 4, 0));
    assert!(g.completed);
}

#[test]
fn editing_skips_lines_that_are_not_shown() {
    let content = "h\n2024-03-05,Gym Outdoor,30,6,3,2,No\nbroken\n";
    let mut g = SessionForm::for_add(25, 5, "1".to_string());
    g.edit_from_history(content, 0, &acts());
    assert_eq!(g.act_idx, 4);
    assert_eq!(g.mins, 30);
    assert_eq!(g.edit_idx, Some(0));
    let mut h = SessionForm::for_add(25, 5, "1".to_string());
    h.edit_from_history(content, 1, &acts());
    assert_eq!(h.edit_idx, None);
}

#[test]
fn no_such_entry_leaves_the_form() {
    let mut g = SessionForm::for_add(25, 5, "1".to_string());
    g.cursor = 2;
    g.edit_from_history("h\n", 0, &acts());
    assert_eq!(g.cursor, 2);
    assert_eq!(g.edit_idx, None);
}

#[test]
fn unknown_activity_in_line() {
    let mut f = SessionForm::for_add(25, 5, "2024".to_string());
    f.act_idx = 99;
    assert_eq!(f.to_line(&acts()), "2024-__-__,Unknown,25,5,4,4,Yes");
}

#[test]
fn editing_and_saving_at_once_keeps_the_file() {
    let content = "date,activity,duration_mins,break_mins,sessions_planned,sessions_done,completed\n2024-01-01,Coding \u{1F4BB},25,5,4,4,Yes\n2024-03-05,Gym Outdoor,30,6,3,2,No\n";
    for d in 0..2 {
        let mut g = SessionForm::for_add(25, 5, "20991231".to_string());
        g.edit_from_history(content, d, &acts());
        let line = g.to_line(&acts());
        assert_eq!(replace_entry(content, d, &line).unwrap(), content);
        assert_eq!(sort_history(content).unwrap(), content);
    }
}
