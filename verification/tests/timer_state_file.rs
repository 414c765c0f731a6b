use pomodoro_tui::timer::TimerState;

fn sample() -> TimerState {
    TimerState { idx: 2, mins: 50, break_mins: 10, total: 6, current: 3, rem: 1234, work: false, bgm_idx: 1 }
}

#[test]
fn state_is_written() {
    assert_eq!(
        sample().to_text(),
        "idx=2\nmins=50\nbreak_mins=10\ntotal=6\ncurrent=3\nrem=1234\nwork=false\nbgm_idx=1\n"
    );
}

#[test]
fn state_is_read_back() {
    let mut t = TimerState { idx: 0, mins: 25, break_mins: 5, total: 4, current: 1, rem: 1500, work: true, bgm_idx: 0 };
    t.apply_text(&sample().to_text(), 4);
    assert_eq!(t, sample());
}

#[test]
fn unknown_activity_and_zero_counts() {
    let mut t = sample();
    t.apply_text("idx=9\nmins=0\ntotal=0\ncurrent=0\nbreak_mins=0\nrem=0\nwork=yes\n", 4);
    assert_eq!(t.idx, 2);
    assert_eq!(t.mins, 1);
    assert_eq!(t.total, 1);
    assert_eq!(t.current, 1);
    assert_eq!(t.break_mins, 1);
    assert_eq!(t.rem, 0);
    assert!(!t.work);
}
