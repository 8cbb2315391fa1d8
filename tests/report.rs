use photocat::report::{rate_hundredths, Frame, ProgressMode, Reporter};

#[test]
fn mode_follows_the_size_hint() {
    assert_eq!(ProgressMode::from_size_hint(Some(7)), ProgressMode::Bounded { total: 7 });
    assert_eq!(ProgressMode::from_size_hint(Some(0)), ProgressMode::Bounded { total: 0 });
    assert_eq!(ProgressMode::from_size_hint(None), ProgressMode::Unbounded);
}

#[test]
fn rates_in_hundredths_per_second() {
    assert_eq!(rate_hundredths(5, 0), 0);
    assert_eq!(rate_hundredths(5, 1000), 500);
    assert_eq!(rate_hundredths(1, 3000), 33);
    assert_eq!(rate_hundredths(2, 3000), 67);
    assert_eq!(rate_hundredths(1, 8000), 13);
    assert_eq!(rate_hundredths(0, 250), 0);
    assert_eq!(rate_hundredths(usize::MAX, 1), usize::MAX as u128 * 100_000);
}

#[test]
fn bar_advances_by_the_growth_of_the_count() {
    let mut r = Reporter::new(ProgressMode::from_size_hint(Some(10)));
    assert_eq!(
        r.poll(3, 1000, false),
        Some(Frame { count: 3, advance: 3, rate_hundredths: 300, is_final: false })
    );
    assert_eq!(r.poll(3, 2000, false).unwrap().advance, 0);
    assert_eq!(r.poll(7, 2000, false).unwrap().advance, 4);
    assert_eq!(r.last_count, 7);
}

#[test]
fn spinner_never_advances_a_bar() {
    let mut r = Reporter::new(ProgressMode::from_size_hint(None));
    assert_eq!(r.poll(3, 1000, false).unwrap().advance, 0);
    assert_eq!(r.poll(9, 3000, false).unwrap().advance, 0);
}

#[test]
fn reporter_renders_a_final_frame_then_stops() {
    let mut r = Reporter::new(ProgressMode::Bounded { total: 5 });
    assert!(!r.poll(2, 100, false).unwrap().is_final);
    let last = r.poll(5, 200, true).unwrap();
    assert!(last.is_final);
    assert_eq!(last.count, 5);
    assert_eq!(last.advance, 3);
    assert!(r.terminated);
    assert_eq!(r.poll(5, 300, true), None);
    assert_eq!(r.poll(6, 400, false), None);
}

#[test]
fn first_poll_after_shutdown_is_final() {
    let mut r = Reporter::new(ProgressMode::Unbounded);
    let only = r.poll(0, 0, true).unwrap();
    assert_eq!(only, Frame { count: 0, advance: 0, rate_hundredths: 0, is_final: true });
    assert_eq!(r.poll(0, 0, true), None);
}
