use photocat::dispatch::{resolve_concurrency, CompletionError, ConfigError, Dispatcher, Outcome, Step};

/// Drives a run over `n` items, completing the oldest item in flight
/// whenever the dispatcher asks to wait, failing item `fail` if given.
/// Returns the dispatcher at the end, how many handler invocations were
/// started per item, and the largest number in flight.
fn drive(n: usize, concurrency: usize, fail: Option<usize>) -> (Dispatcher, Vec<usize>, usize) {
    let mut d = Dispatcher::new(Some(concurrency), None).unwrap();
    let mut started = vec![0usize; n];
    let mut in_flight: Vec<usize> = Vec::new();
    let mut max_in_flight = 0;
    let mut pulled = 0;
    loop {
        match d.next_step() {
            Step::Pull => {
                if pulled == n {
                    d.end_of_input();
                    continue;
                }
                let index = d.dispatch().unwrap();
                assert_eq!(index, pulled);
                pulled += 1;
                started[index] += 1;
                in_flight.push(index);
                max_in_flight = max_in_flight.max(in_flight.len());
            }
            Step::AwaitCompletion => {
                let index = in_flight.remove(0);
                let outcome = if Some(index) == fail { Outcome::Failure } else { Outcome::Success };
                d.complete(index, outcome).unwrap();
            }
            Step::SignalShutdown => {
                assert!(d.signal_shutdown());
            }
            Step::Finished => break,
        }
    }
    (d, started, max_in_flight)
}

#[test]
fn every_item_is_dispatched_once_and_counted() {
    for concurrency in 1..7 {
        let (d, started, _) = drive(5, concurrency, None);
        assert!(started.iter().all(|s| *s == 1));
        assert_eq!(d.processed, 5);
        assert_eq!(d.finished, vec![true; 5]);
        assert!(d.shutdown);
        assert_eq!(d.failures, 0);
    }
}

#[test]
fn empty_input_shuts_down_at_once() {
    let (d, started, max_in_flight) = drive(0, 3, None);
    assert!(started.is_empty());
    assert_eq!(max_in_flight, 0);
    assert_eq!(d.processed, 0);
    assert!(d.shutdown);
}

#[test]
fn in_flight_never_exceeds_concurrency() {
    for concurrency in 1..5 {
        let (_, _, max_in_flight) = drive(10, concurrency, None);
        assert_eq!(max_in_flight, concurrency);
    }
}

#[test]
fn all_items_start_together_when_concurrency_suffices() {
    let mut d = Dispatcher::new(Some(5), None).unwrap();
    for i in 0..5 {
        assert_eq!(d.next_step(), Step::Pull);
        assert_eq!(d.dispatch(), Some(i));
    }
    assert_eq!(d.finished.len(), 5);
    assert_eq!(d.processed, 0);
    d.end_of_input();
    assert_eq!(d.next_step(), Step::AwaitCompletion);
}

#[test]
fn one_failure_does_not_stop_the_run() {
    let (d, started, _) = drive(5, 2, Some(2));
    assert!(started.iter().all(|s| *s == 1));
    assert_eq!(d.processed, 5);
    assert_eq!(d.failures, 1);
    assert!(d.shutdown);
}

#[test]
fn dispatch_is_refused_at_capacity() {
    let mut d = Dispatcher::new(Some(1), None).unwrap();
    assert_eq!(d.dispatch(), Some(0));
    assert_eq!(d.next_step(), Step::AwaitCompletion);
    assert_eq!(d.dispatch(), None);
    assert_eq!(d.finished, vec![false]);
}

#[test]
fn completion_of_an_item_not_in_flight_is_refused() {
    let mut d = Dispatcher::new(Some(2), None).unwrap();
    assert_eq!(d.complete(0, Outcome::Success), Err(CompletionError::NotInFlight));
    assert_eq!(d.dispatch(), Some(0));
    assert_eq!(d.complete(0, Outcome::Success), Ok(()));
    assert_eq!(d.complete(0, Outcome::Success), Err(CompletionError::NotInFlight));
    assert_eq!(d.processed, 1);
}

#[test]
fn shutdown_is_signalled_once_and_only_when_done() {
    let mut d = Dispatcher::new(Some(2), None).unwrap();
    assert!(!d.signal_shutdown());
    assert_eq!(d.dispatch(), Some(0));
    d.end_of_input();
    assert!(!d.signal_shutdown());
    d.complete(0, Outcome::Failure).unwrap();
    assert_eq!(d.next_step(), Step::SignalShutdown);
    assert!(d.signal_shutdown());
    assert!(d.shutdown);
    assert!(!d.signal_shutdown());
    assert!(d.shutdown);
    assert_eq!(d.next_step(), Step::Finished);
    assert_eq!(d.dispatch(), None);
}

#[test]
fn concurrency_resolution() {
    assert_eq!(resolve_concurrency(Some(3), Some(8)), Ok(3));
    assert_eq!(resolve_concurrency(Some(3), None), Ok(3));
    assert_eq!(resolve_concurrency(None, Some(8)), Ok(8));
    assert_eq!(resolve_concurrency(None, Some(1)), Ok(1));
    assert_eq!(resolve_concurrency(Some(0), Some(8)), Err(ConfigError::ZeroConcurrency));
    assert_eq!(resolve_concurrency(None, None), Err(ConfigError::UnknownParallelism));
    assert_eq!(resolve_concurrency(None, Some(0)), Err(ConfigError::UnknownParallelism));
    assert_eq!(Dispatcher::new(Some(0), None).err(), Some(ConfigError::ZeroConcurrency));
    assert_eq!(Dispatcher::new(None, Some(4)).unwrap().concurrency, 4);
}
