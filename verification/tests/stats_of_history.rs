use pomodoro_tui::stats::load_stats;

const HEADER: &str = "date,activity,duration_mins,break_mins,sessions_planned,sessions_done,completed";

#[test]
fn statistics_per_activity() {
    let content = format!(
        "{}\n2024-01-01,Gym,25,5,4,4,Yes\n2024-01-02,Read,30,5,3,1,No\n2024-01-03,Gym,50,10,2,2, Yes \nshort,line\n2024-01-04,Gym,x,5,4,3,No\n",
        HEADER
    );
    let stats = load_stats(&content).unwrap();
    assert_eq!(stats.len(), 2);
    assert_eq!(stats[0].name, "Gym");
    assert_eq!(stats[0].total_entries, 3);
    assert_eq!(stats[0].total_sessions, 9);
    assert_eq!(stats[0].total_minutes, 200);
    assert_eq!(stats[0].completed, 2);
    assert_eq!(stats[0].abandoned, 1);
    assert_eq!(stats[1].name, "Read");
    assert_eq!(stats[1].total_entries, 1);
    assert_eq!(stats[1].total_minutes, 30);
    assert_eq!(stats[1].abandoned, 1);
}

#[test]
fn no_history_no_statistics() {
    assert!(load_stats("").unwrap().is_empty());
    assert!(load_stats(HEADER).unwrap().is_empty());
}

#[test]
fn minutes_too_many_for_a_counter() {
    let content = format!("{}\n2024-01-01,Gym,4294967295,5,4,2,Yes\n", HEADER);
    assert!(load_stats(&content).is_none());
    let fits = format!("{}\n2024-01-01,Gym,4294967295,5,4,1,Yes\n", HEADER);
    assert_eq!(load_stats(&fits).unwrap()[0].total_minutes, 4294967295);
}
