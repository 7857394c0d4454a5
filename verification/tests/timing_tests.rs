use scviz::comm::TimingDiagnostics;
use scviz::timing::CYCLE_TIME_MAX;

#[test]
fn new_starts_from_the_baselines() {
    let t = TimingDiagnostics::new(10);
    assert_eq!(t.diagnostic_proc_cycles(), 10);
    assert_eq!(t.diagnostic_proc_cycle(), 0);
    assert_eq!(t.avg_diag_cycle_time(), 0);
    assert_eq!(t.max_diag_cycle_time(), 0);
    assert_eq!(t.min_diag_cycle_time(), CYCLE_TIME_MAX);
    assert_eq!(CYCLE_TIME_MAX, u128::MAX);
}

#[test]
fn window_of_three_accumulates_and_completes() {
    let mut t = TimingDiagnostics::new(3);
    t.record();
    assert!(!t.done_with(30));
    assert_eq!(t.avg_diag_cycle_time(), 10);
    t.record();
    assert!(!t.done_with(90));
    assert_eq!(t.avg_diag_cycle_time(), 40);
    t.record();
    assert!(t.done_with(60));
    assert_eq!(t.diagnostic_proc_cycle(), 3);
    assert_eq!(t.avg_diag_cycle_time(), 60);
    assert_eq!(t.max_diag_cycle_time(), 90);
    assert_eq!(t.min_diag_cycle_time(), 30);
}

#[test]
fn record_after_a_complete_window_resets() {
    let mut t = TimingDiagnostics::new(2);
    t.record();
    assert!(!t.done_with(8));
    t.record();
    assert!(t.done_with(4));
    assert_eq!(t.avg_diag_cycle_time(), 6);
    t.record();
    assert_eq!(t.diagnostic_proc_cycle(), 0);
    assert_eq!(t.avg_diag_cycle_time(), 0);
    assert_eq!(t.max_diag_cycle_time(), 0);
    assert_eq!(t.min_diag_cycle_time(), CYCLE_TIME_MAX);
    assert!(!t.done_with(100));
    assert_eq!(t.avg_diag_cycle_time(), 50);
    assert_eq!(t.max_diag_cycle_time(), 100);
    assert_eq!(t.min_diag_cycle_time(), 100);
}

#[test]
fn record_in_an_open_window_keeps_the_statistics() {
    let mut t = TimingDiagnostics::new(4);
    t.record();
    assert!(!t.done_with(40));
    t.record();
    t.record();
    assert_eq!(t.diagnostic_proc_cycle(), 1);
    assert_eq!(t.avg_diag_cycle_time(), 10);
    assert_eq!(t.max_diag_cycle_time(), 40);
    assert_eq!(t.min_diag_cycle_time(), 40);
}

#[test]
fn share_is_rounded_down_for_each_cycle() {
    let mut t = TimingDiagnostics::new(4);
    for e in [7u128, 7, 7, 7] {
        t.record();
        t.done_with(e);
    }
    // Four shares of 7 / 4 = 1, not 28 / 4 = 7.
    assert_eq!(t.avg_diag_cycle_time(), 4);
}

#[test]
fn done_without_record_starts_a_new_window() {
    let mut t = TimingDiagnostics::new(1);
    assert!(t.done_with(5));
    assert!(t.done_with(9));
    assert_eq!(t.diagnostic_proc_cycle(), 1);
    assert_eq!(t.avg_diag_cycle_time(), 9);
    assert_eq!(t.max_diag_cycle_time(), 9);
    assert_eq!(t.min_diag_cycle_time(), 9);
}

#[test]
fn window_of_zero_always_reports_and_keeps_no_average() {
    let mut t = TimingDiagnostics::new(0);
    for e in [5u128, 50, 500] {
        t.record();
        assert!(t.done_with(e));
        assert_eq!(t.diagnostic_proc_cycle(), 0);
        assert_eq!(t.avg_diag_cycle_time(), 0);
        assert_eq!(t.max_diag_cycle_time(), e);
        assert_eq!(t.min_diag_cycle_time(), e);
    }
}

#[test]
fn longest_cycle_time_does_not_overflow_the_average() {
    let mut t = TimingDiagnostics::new(2);
    t.record();
    assert!(!t.done_with(u128::MAX));
    t.record();
    assert!(t.done_with(u128::MAX));
    assert_eq!(t.avg_diag_cycle_time(), u128::MAX - 1);
    assert_eq!(t.max_diag_cycle_time(), u128::MAX);
    assert_eq!(t.min_diag_cycle_time(), u128::MAX);
}

#[test]
fn done_goes_by_the_clock() {
    let mut t = TimingDiagnostics::new(2);
    t.record();
    assert!(!t.done());
    assert_eq!(t.diagnostic_proc_cycle(), 1);
    assert!(t.min_diag_cycle_time() <= t.max_diag_cycle_time());
    t.record();
    assert!(t.done());
    assert_eq!(t.diagnostic_proc_cycle(), 2);
    let copy = t;
    assert_eq!(copy.max_diag_cycle_time(), t.max_diag_cycle_time());
}

#[test]
fn record_at_keeps_the_reading_it_is_given() {
    let mut t = TimingDiagnostics::new(1);
    let earlier = std::time::Instant::now();
    assert!(t.done_with(5));
    t.record_at(earlier);
    assert_eq!(t.started_at(), earlier);
    assert_eq!(t.diagnostic_proc_cycle(), 0);
    assert_eq!(t.min_diag_cycle_time(), CYCLE_TIME_MAX);
    assert!(t.done_with(7));
    assert_eq!(t.started_at(), earlier);
    t.record();
    assert!(t.started_at() >= earlier);
}
