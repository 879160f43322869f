use orbits::{FrameWindow, WINDOW_CAPACITY};

#[test]
fn empty_window_reports_nothing() {
    let w = FrameWindow::new();
    assert_eq!(w.len(), 0);
    assert_eq!(w.fps_ratio(), None);
    assert_eq!(w.fps_floor(), None);
}

#[test]
fn newest_duration_comes_first() {
    let mut w = FrameWindow::new();
    w.record(5);
    w.record(7);
    w.record(9);
    assert_eq!(w.samples(), &vec![9, 7, 5]);
    assert_eq!(w.total_nanos(), 21);
}

#[test]
fn window_never_exceeds_capacity() {
    let mut w = FrameWindow::new();
    for i in 0..1000u64 {
        w.record(i + 1);
        assert!(w.len() <= WINDOW_CAPACITY);
    }
    assert_eq!(w.len(), 20);
}

#[test]
fn twenty_first_insertion_drops_the_oldest() {
    let mut w = FrameWindow::new();
    for i in 1..=20u64 {
        w.record(i * 1000);
    }
    assert_eq!(w.len(), 20);
    assert!(w.samples().contains(&1000));
    w.record(21_000);
    assert_eq!(w.len(), 20);
    assert!(!w.samples().contains(&1000));
    assert_eq!(w.samples()[0], 21_000);
    assert_eq!(w.samples()[19], 2000);
}

#[test]
fn steady_sixty_hertz() {
    let mut w = FrameWindow::new();
    for _ in 0..30 {
        w.record(16_666_667);
    }
    assert_eq!(w.fps_ratio(), Some((20_000_000_000, 333_333_340)));
    assert_eq!(w.fps_floor(), Some(59));
}

#[test]
fn mean_of_mixed_durations() {
    let mut w = FrameWindow::new();
    w.record(10_000_000);
    w.record(30_000_000);
    // mean 20 ms
    assert_eq!(w.fps_floor(), Some(50));
}

#[test]
fn positive_samples_give_positive_rate() {
    let samples = [1u64, 3, 999_999_999_999, u64::MAX, 42];
    let mut w = FrameWindow::new();
    for s in samples {
        w.record(s);
        let (n, d) = w.fps_ratio().expect("non-empty window of positive durations");
        assert!(n > 0 && d > 0);
        let fps = n as f64 / d as f64;
        assert!(fps.is_finite() && fps > 0.0);
    }
}

#[test]
fn full_window_of_largest_durations_does_not_overflow() {
    let mut w = FrameWindow::new();
    for _ in 0..25 {
        w.record(u64::MAX);
    }
    assert_eq!(w.total_nanos(), 20 * u64::MAX as u128);
    assert_eq!(w.fps_floor(), Some(0));
}

#[test]
fn zero_durations_report_nothing() {
    let mut w = FrameWindow::new();
    w.record(0);
    w.record(0);
    assert_eq!(w.fps_ratio(), None);
    w.record(4);
    assert_eq!(w.fps_ratio(), Some((3_000_000_000, 4)));
}
