use pomodoro_tui::history::{
    append_text, delete_entry, history_display, history_lines, rename_activity, replace_entry,
    scroll_after_delete, sort_history, timer_session_line,
};

const HEADER: &str = "date,activity,duration_mins,break_mins,sessions_planned,sessions_done,completed";

#[test]
fn completed_session_line() {
    let line = timer_session_line("2024-03-05", "Deep, Work", 25, 5, 4, 4, true);
    assert_eq!(line, "2024-03-05,Deep Work,25,5,4,4,Yes");
}

#[test]
fn abandoned_session_counts_sessions_before_the_current_one() {
    assert_eq!(timer_session_line("2024-03-05", "Coding", 50, 10, 6, 3, false), "2024-03-05,Coding,50,10,6,2,No");
    assert_eq!(timer_session_line("2024-03-05", "Coding", 50, 10, 6, 0, false), "2024-03-05,Coding,50,10,6,0,No");
}

#[test]
fn header_comes_first_in_a_new_file() {
    assert_eq!(append_text(true, "x"), format!("{}\nx\n", HEADER));
    assert_eq!(append_text(false, "x"), "x\n");
}

#[test]
fn history_is_sorted_by_date_stably() {
    let content = format!(
        "{}\n2024-03-05,B,25,5,4,4,Yes\n\n2024-01-01,A,25,5,4,4,Yes\n2024-03-05,C,25,5,4,1,No\n2023-12-31,D,25,5,4,4,Yes",
        HEADER
    );
    let sorted = sort_history(&content).unwrap();
    assert_eq!(
        sorted,
        format!(
            "{}\n2023-12-31,D,25,5,4,4,Yes\n2024-01-01,A,25,5,4,4,Yes\n2024-03-05,B,25,5,4,4,Yes\n2024-03-05,C,25,5,4,1,No\n",
            HEADER
        )
    );
}

#[test]
fn short_history_is_not_rewritten() {
    assert!(sort_history("").is_none());
    assert!(sort_history(&format!("{}\n2024-01-01,A,25,5,4,4,Yes\n", HEADER)).is_none());
}

#[test]
fn entries_are_shown_newest_first() {
    let content = format!(
        "{}\n2024-01-01,A,25,5,4,4,Yes\n2024-01-02,B,30,5,3,1,No\n2024-01-03,Old,20,4,2,done\nbroken line\n",
        HEADER
    );
    let shown = history_display(&content);
    assert_eq!(
        shown,
        vec![
            "2024-01-03 | Old | 20min | 2/4 sessions | done".to_string(),
            "2024-01-02 | B | 30min work / 5min break | 1/3 sessions | No".to_string(),
            "2024-01-01 | A | 25min work / 5min break | 4/4 sessions | Yes".to_string(),
        ]
    );
    assert_eq!(history_lines(&content).len(), 4);
    assert!(history_lines("").is_empty());
}

#[test]
fn deleting_takes_out_the_entry_shown() {
    let a = "2024-01-01,A,25,5,4,4,Yes";
    let b = "2024-01-02,B,25,5,4,4,Yes";
    let c = "2024-01-03,C,25,5,4,4,Yes";
    let content = format!("{}\n{}\n{}\n{}\n", HEADER, a, b, c);
    assert_eq!(delete_entry(&content, 0).unwrap(), format!("{}\n{}\n{}\n", HEADER, a, b));
    assert_eq!(delete_entry(&content, 2).unwrap(), format!("{}\n{}\n{}\n", HEADER, b, c));
    assert!(delete_entry(&content, 3).is_none());
    assert!(delete_entry(HEADER, 0).is_none());
}

#[test]
fn deleting_skips_lines_that_are_not_shown() {
    let a = "2024-01-01,A,25,5,4,4,Yes";
    let b = "2024-01-02,B,25,4,4,Yes";
    let content = format!("{}\n{}\nbroken\n{}\n\n", HEADER, a, b);
    assert_eq!(history_display(&content).len(), 2);
    assert_eq!(
        delete_entry(&content, 1).unwrap(),
        format!("{}\nbroken\n{}\n\n", HEADER, b)
    );
    assert_eq!(
        delete_entry(&content, 0).unwrap(),
        format!("{}\n{}\nbroken\n\n", HEADER, a)
    );
    assert!(delete_entry(&content, 2).is_none());
    let shown = history_display(&content);
    let after = history_display(&delete_entry(&content, 0).unwrap());
    assert_eq!(after, vec![shown[1].clone()]);
}

#[test]
fn replacing_the_entry_shown() {
    let a = "2024-01-01,A,25,5,4,4,Yes";
    let x = "2024-02-02,X,25,5,4,4,No";
    let content = format!("{}\n{}\nshort,line\n", HEADER, a);
    assert_eq!(replace_entry(&content, 0, x).unwrap(), format!("{}\n{}\nshort,line\n", HEADER, x));
    assert!(replace_entry(&content, 1, x).is_none());
}

#[test]
fn renaming_an_activity_in_the_history() {
    let content = format!(
        "{}\n2024-01-01,Gym,25,5,4,4,Yes\n2024-01-02,Reading,25,5,4,4,Yes\n2024-01-03,Gym,25\n2024-01-04,Gym,25,4,4,Yes\n2024-01-05,Gym Outdoor,25,5,4,4,Yes\n",
        HEADER
    );
    let renamed = rename_activity(&content, "Gym", "Running");
    assert_eq!(
        renamed,
        format!(
            "{}\n2024-01-01,Running,25,5,4,4,Yes\n2024-01-02,Reading,25,5,4,4,Yes\n2024-01-03,Gym,25\n2024-01-04,Running,25,4,4,Yes\n2024-01-05,Gym Outdoor,25,5,4,4,Yes\n",
            HEADER
        )
    );
    assert_eq!(rename_activity("", "Gym", "Running"), "\n");
}

#[test]
fn the_header_is_never_renamed() {
    let renamed = rename_activity("a,Gym,1,2,3,4,5\n", "Gym", "Run");
    assert_eq!(renamed, "a,Gym,1,2,3,4,5\n");
}

#[test]
fn selection_after_a_deletion() {
    assert_eq!(scroll_after_delete(3, 0), 0);
    assert_eq!(scroll_after_delete(3, 3), 2);
    assert_eq!(scroll_after_delete(1, 3), 1);
}

#[test]
fn sorting_twice_changes_nothing() {
    let content = format!(
        "{}\n2024-03-05,B,25,5,4,4,Yes\n\n2024-01-01,A,25,5,4,4,Yes\n2024-03-05,C,25,5,4,1,No\n",
        HEADER
    );
    let once = sort_history(&content).unwrap();
    let twice = sort_history(&once).unwrap();
    assert_eq!(once, twice);
}

#[test]
fn renaming_back_restores_the_file() {
    let content = format!(
        "{}\n2024-01-01,Gym,25,5,4,4,Yes\n2024-01-02,Reading,25,5,4,4,Yes\n2024-01-04,Gym,25,4,4,Yes\nbroken\n",
        HEADER
    );
    let there = rename_activity(&content, "Gym", "Running");
    assert_ne!(there, content);
    assert_eq!(rename_activity(&there, "Running", "Gym"), content);
}
