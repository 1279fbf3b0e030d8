use phasedm::timing::{get_timing_report, reset_timers, CumulativeTimer};

#[test]
fn new_timer_reports_nothing() {
    let t = CumulativeTimer::new();
    assert_eq!(t.report(), "Cumulative timing report:\n");
    assert!(!t.is_running("a"));
    assert_eq!(t.total_nanos("a"), None);
}

#[test]
fn start_and_stop_accumulate() {
    let mut t = CumulativeTimer::new();
    t.start_at("fold", 100);
    assert!(t.is_running("fold"));
    t.stop_at("fold", 1_600);
    assert!(!t.is_running("fold"));
    assert_eq!(t.total_nanos("fold"), Some(1_500));
    t.start_at("fold", 2_000);
    t.stop_at("fold", 2_500);
    assert_eq!(t.total_nanos("fold"), Some(2_000));
}

#[test]
fn restart_overwrites_unfinished_start() {
    let mut t = CumulativeTimer::new();
    t.start_at("x", 10);
    t.start_at("x", 50);
    t.stop_at("x", 60);
    assert_eq!(t.total_nanos("x"), Some(10));
}

#[test]
fn clock_going_back_counts_as_zero() {
    let mut t = CumulativeTimer::new();
    t.start_at("x", 100);
    t.stop_at("x", 40);
    assert_eq!(t.total_nanos("x"), Some(0));
}

#[test]
fn report_lists_longest_first() {
    let mut t = CumulativeTimer::new();
    t.start_at("short", 0);
    t.stop_at("short", 2_000_000);
    t.start_at("long", 0);
    t.stop_at("long", 1_500_000_499);
    t.start_at("mid", 0);
    t.stop_at("mid", 250_000_500);
    assert_eq!(
        t.report(),
        "Cumulative timing report:\n\
         long: 1.500000 seconds\n\
         mid: 0.250001 seconds\n\
         short: 0.002000 seconds\n"
    );
    assert_eq!(get_timing_report(&t), t.report());
}

#[test]
fn reset_clears_totals_but_not_running() {
    let mut t = CumulativeTimer::new();
    t.start_at("a", 0);
    t.stop_at("a", 5);
    t.start_at("b", 7);
    t.reset();
    assert_eq!(t.total_nanos("a"), None);
    assert!(t.is_running("b"));
    t.stop_at("b", 10);
    assert_eq!(t.total_nanos("b"), Some(3));
    reset_timers(&mut t);
    assert_eq!(t.report(), "Cumulative timing report:\n");
}

#[test]
fn disabled_timer_records_nothing() {
    let mut t = CumulativeTimer::new();
    t.set_enabled(false);
    t.start_at("a", 0);
    assert!(!t.is_running("a"));
    t.stop_at("a", 10);
    assert_eq!(t.total_nanos("a"), None);
}

#[test]
fn real_clock_sections() {
    let mut t = CumulativeTimer::new();
    t.start("s");
    t.stop("s");
    assert!(t.total_nanos("s").is_some());
    let r = t.report();
    assert!(r.starts_with("Cumulative timing report:\ns: "));
    assert!(r.ends_with(" seconds\n"));
}

#[test]
fn large_totals_render_whole_seconds() {
    let mut t = CumulativeTimer::new();
    t.start_at("big", 0);
    t.stop_at("big", 123_456_789_999_500);
    assert_eq!(t.report(), "Cumulative timing report:\nbig: 123456.790000 seconds\n");
}
