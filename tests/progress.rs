use rt_weekend_multithreaded::progress::progress_report;

#[test]
fn reports_each_hundredth() {
    assert_eq!(progress_report(0, 1000), Some(0));
    assert_eq!(progress_report(10, 1000), Some(1));
    assert_eq!(progress_report(500, 1000), Some(50));
    assert_eq!(progress_report(990, 1000), Some(99));
}

#[test]
fn skips_between_hundredths() {
    assert_eq!(progress_report(11, 1000), None);
    assert_eq!(progress_report(999, 1000), None);
}

#[test]
fn small_frame_reports_every_pixel() {
    assert_eq!(progress_report(3, 50), Some(6));
    assert_eq!(progress_report(1, 3), Some(33));
}

#[test]
fn empty_frame_reports_nothing() {
    assert_eq!(progress_report(0, 0), None);
}

#[test]
fn large_counts_do_not_overflow() {
    assert_eq!(progress_report(u32::MAX, 1), Some(u32::MAX as u64 * 100));
}
