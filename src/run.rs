//! Whole runs of the executor, as sequences of the events that the runner
//! reports to the dispatcher, each one of those the dispatcher asks for.
//!
//! Over an input of `n` items, every run that reaches the shutdown signal has
//! started each item once and seen each item complete once, whatever failed;
//! a run that has not reached it can always go on; and no run has more than
//! `2 * n + 2` events, so every run ends.

use vstd::prelude::*;
use crate::dispatch::{
    count_true, lemma_count_true_all, lemma_count_true_all_true, lemma_count_true_bounded,
    lemma_count_true_push_false, lemma_count_true_set, Outcome, Step,
};

verus! {

/// What the dispatcher knows of a run.
pub struct RunState {
    pub concurrency: nat,
    /// One entry per item dispatched so far: whether it has completed.
    pub finished: Seq<bool>,
    pub processed: nat,
    pub failures: nat,
    pub input_exhausted: bool,
    pub shutdown: bool,
}

/// An event that the runner reports.
pub enum Event {
    /// The next item was pulled from the input and its handler started.
    Pulled,
    /// The input reported its end.
    InputEnded,
    /// The invocation of item `index` completed with an outcome.
    Completed(int, Outcome),
    /// The shutdown signal was raised.
    Signalled,
}

/// The state of a run before its first event.
pub open spec fn start(concurrency: nat) -> RunState {
    RunState {
        concurrency,
        finished: Seq::empty(),
        processed: 0,
        failures: 0,
        input_exhausted: false,
        shutdown: false,
    }
}

impl RunState {
    pub open spec fn in_flight(self) -> int {
        self.finished.len() - self.processed
    }

    /// What the dispatcher asks for in this state.
    pub open spec fn next(self) -> Step {
        if self.shutdown {
            Step::Finished
        } else if !self.input_exhausted && self.in_flight() < self.concurrency
            && self.finished.len() < usize::MAX {
            Step::Pull
        } else if self.in_flight() > 0 {
            Step::AwaitCompletion
        } else if self.input_exhausted {
            Step::SignalShutdown
        } else {
            Step::AwaitCompletion
        }
    }

    /// Whether `e` may happen in this state, over an input of `n` items.
    pub open spec fn allows(self, e: Event, n: nat) -> bool {
        match e {
            Event::Pulled => self.next() == Step::Pull && self.finished.len() < n,
            Event::InputEnded => self.next() == Step::Pull && self.finished.len() == n,
            Event::Completed(i, _) => self.next() == Step::AwaitCompletion && 0 <= i
                < self.finished.len() && !self.finished[i],
            Event::Signalled => self.next() == Step::SignalShutdown,
        }
    }

    /// The state after `e`.
    pub open spec fn after(self, e: Event) -> RunState {
        match e {
            Event::Pulled => RunState { finished: self.finished.push(false), ..self },
            Event::InputEnded => RunState { input_exhausted: true, ..self },
            Event::Completed(i, o) => RunState {
                finished: self.finished.update(i, true),
                processed: self.processed + 1,
                failures: self.failures + if o == Outcome::Failure {
                    1nat
                } else {
                    0nat
                },
                ..self
            },
            Event::Signalled => RunState { shutdown: true, ..self },
        }
    }
}

/// The state after the events `events`, from `s`.
pub open spec fn run(s: RunState, events: Seq<Event>) -> RunState
    decreases events.len(),
{
    if events.len() == 0 {
        s
    } else {
        run(s, events.drop_last()).after(events.last())
    }
}

/// Whether each of `events` is one the dispatcher asks for when it comes,
/// over an input of `n` items.
pub open spec fn follows(s: RunState, events: Seq<Event>, n: nat) -> bool
    decreases events.len(),
{
    events.len() == 0 || (follows(s, events.drop_last(), n) && run(s, events.drop_last()).allows(
        events.last(),
        n,
    ))
}

/// Number of completions of item `i` among `events`.
pub open spec fn completions(events: Seq<Event>, i: int) -> nat
    decreases events.len(),
{
    if events.len() == 0 {
        0
    } else {
        completions(events.drop_last(), i) + match events.last() {
            Event::Completed(j, _) => if j == i {
                1nat
            } else {
                0nat
            },
            _ => 0nat,
        }
    }
}

/// Number of failed completions among `events`.
pub open spec fn failed(events: Seq<Event>) -> nat
    decreases events.len(),
{
    if events.len() == 0 {
        0
    } else {
        failed(events.drop_last()) + match events.last() {
            Event::Completed(_, o) => if o == Outcome::Failure {
                1nat
            } else {
                0nat
            },
            _ => 0nat,
        }
    }
}

/// What holds after every sequence of events that the dispatcher asked for.
pub open spec fn run_invariant(s: RunState, events: Seq<Event>, n: nat, concurrency: nat) -> bool {
    &&& s.concurrency == concurrency
    &&& s.finished.len() <= n
    &&& s.processed == count_true(s.finished)
    &&& s.processed <= s.finished.len()
    &&& s.failures == failed(events)
    &&& forall|i: int|
        0 <= i < s.finished.len() ==> completions(events, i) == if #[trigger] s.finished[i] {
            1nat
        } else {
            0nat
        }
    &&& forall|i: int| (i < 0 || i >= s.finished.len()) ==> #[trigger] completions(events, i) == 0
    &&& (s.input_exhausted ==> s.finished.len() == n)
    &&& (s.shutdown ==> s.input_exhausted && s.processed == s.finished.len())
    &&& events.len() == s.finished.len() + s.processed + (if s.input_exhausted {
        1nat
    } else {
        0nat
    }) + (if s.shutdown {
        1nat
    } else {
        0nat
    })
}

proof fn lemma_run_invariant(concurrency: nat, n: nat, events: Seq<Event>)
    requires
        concurrency >= 1,
        follows(start(concurrency), events, n),
    ensures
        run_invariant(run(start(concurrency), events), events, n, concurrency),
    decreases events.len(),
{
    let s0 = start(concurrency);
    if events.len() == 0 {
        assert(s0.finished =~= Seq::<bool>::empty());
    } else {
        let prefix = events.drop_last();
        let e = events.last();
        lemma_run_invariant(concurrency, n, prefix);
        let s = run(s0, prefix);
        let t = s.after(e);
        assert(run(s0, events) == t);
        assert(s.allows(e, n));
        assert(failed(events) == failed(prefix) + match e {
            Event::Completed(_, o) => if o == Outcome::Failure {
                1nat
            } else {
                0nat
            },
            _ => 0nat,
        });
        assert forall|i: int| #[trigger] completions(events, i) == completions(prefix, i) + match e {
            Event::Completed(j, _) => if j == i {
                1nat
            } else {
                0nat
            },
            _ => 0nat,
        } by {}
        lemma_count_true_bounded(s.finished);
        match e {
            Event::Pulled => {
                lemma_count_true_push_false(s.finished);
                assert forall|i: int| 0 <= i < t.finished.len() implies completions(events, i)
                    == if #[trigger] t.finished[i] {
                    1nat
                } else {
                    0nat
                } by {
                    if i < s.finished.len() {
                        assert(t.finished[i] == s.finished[i]);
                    }
                }
            },
            Event::InputEnded => {},
            Event::Completed(k, o) => {
                lemma_count_true_set(s.finished, k);
                assert forall|i: int| 0 <= i < t.finished.len() implies completions(events, i)
                    == if #[trigger] t.finished[i] {
                    1nat
                } else {
                    0nat
                } by {
                    if i != k {
                        assert(t.finished[i] == s.finished[i]);
                    }
                }
            },
            Event::Signalled => {},
        }
        lemma_count_true_bounded(t.finished);
    }
}

/// Every run that reaches the shutdown signal over an input of `n` items has
/// dispatched all `n` items, seen each complete exactly once, counted every
/// completion, failed or not, and counted each failure: a failing item
/// neither stops the run nor is skipped.
pub proof fn lemma_run_dispatches_each_item_once(concurrency: nat, n: nat, events: Seq<Event>)
    requires
        concurrency >= 1,
        follows(start(concurrency), events, n),
        run(start(concurrency), events).shutdown,
    ensures
        run(start(concurrency), events).finished.len() == n,
        run(start(concurrency), events).processed == n,
        forall|i: int| 0 <= i < n ==> #[trigger] completions(events, i) == 1,
        run(start(concurrency), events).failures == failed(events),
{
    lemma_run_invariant(concurrency, n, events);
    let s = run(start(concurrency), events);
    lemma_count_true_all(s.finished);
    assert forall|i: int| 0 <= i < n implies #[trigger] completions(events, i) == 1 by {
        assert(s.finished[i]);
    }
}

/// A run over `n` items, fewer than a `usize` can count, that has not
/// reached the shutdown signal can always go on with some event.
pub proof fn lemma_run_goes_on(concurrency: nat, n: nat, events: Seq<Event>)
    requires
        concurrency >= 1,
        n < usize::MAX,
        follows(start(concurrency), events, n),
        !run(start(concurrency), events).shutdown,
    ensures
        exists|e: Event| #[trigger] run(start(concurrency), events).allows(e, n),
{
    lemma_run_invariant(concurrency, n, events);
    let s = run(start(concurrency), events);
    match s.next() {
        Step::Pull => {
            if s.finished.len() < n {
                assert(s.allows(Event::Pulled, n));
            } else {
                assert(s.allows(Event::InputEnded, n));
            }
        },
        Step::AwaitCompletion => {
            assert(s.in_flight() > 0);
            if forall|i: int| 0 <= i < s.finished.len() ==> #[trigger] s.finished[i] {
                lemma_count_true_all_true(s.finished);
            }
            let i = choose|i: int| 0 <= i < s.finished.len() && !s.finished[i];
            assert(s.allows(Event::Completed(i, Outcome::Success), n));
        },
        Step::SignalShutdown => {
            assert(s.allows(Event::Signalled, n));
        },
        Step::Finished => {},
    }
}

/// No run over `n` items has more than `2 * n + 2` events: each item is
/// pulled once and completes once, and the input's end and the shutdown
/// signal come once each.
pub proof fn lemma_run_is_bounded(concurrency: nat, n: nat, events: Seq<Event>)
    requires
        concurrency >= 1,
        follows(start(concurrency), events, n),
    ensures
        events.len() <= 2 * n + 2,
{
    lemma_run_invariant(concurrency, n, events);
}

} // verus!
