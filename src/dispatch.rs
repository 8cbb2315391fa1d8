//! The task executor's decisions: how much concurrency a run gets, when the
//! next item may be pulled, when the runner must wait for a completion, and
//! when the shutdown signal is raised.
//!
//! The runner around this state machine performs what it asks for (starting a
//! handler, awaiting a completion) and reports each event back.

use vstd::prelude::*;
use crate::run::{start, Event, RunState};

verus! {

/// A run that cannot start.
#[derive(Debug, Clone, Copy, PartialEq, Eq, Structural)]
pub enum ConfigError {
    /// A concurrency of zero was requested.
    ZeroConcurrency,
    /// No concurrency was requested and the host did not report its
    /// available parallelism.
    UnknownParallelism,
}

/// A completion reported for an item that is not in flight.
#[derive(Debug, Clone, Copy, PartialEq, Eq, Structural)]
pub enum CompletionError {
    NotInFlight,
}

/// How one handler invocation ended.
#[derive(Debug, Clone, Copy, PartialEq, Eq, Structural)]
pub enum Outcome {
    Success,
    Failure,
}

/// What the runner has to do next.
#[derive(Debug, Clone, Copy, PartialEq, Eq, Structural)]
pub enum Step {
    /// Pull the next item from the input and start its handler.
    Pull,
    /// Wait until one of the invocations in flight completes.
    AwaitCompletion,
    /// Every item is done: raise the shutdown signal.
    SignalShutdown,
    /// The shutdown signal has been raised; nothing is left to do.
    Finished,
}

/// Resolves the concurrency of a run: the requested value, or else the
/// parallelism that the host reports. Zero is never accepted.
pub fn resolve_concurrency(requested: Option<usize>, host: Option<usize>) -> (r: Result<
    usize,
    ConfigError,
>)
    ensures
        r == resolve_concurrency_spec(requested, host),
        r is Ok ==> r->Ok_0 >= 1,
{
    match requested {
        Some(n) => if n == 0 {
            Err(ConfigError::ZeroConcurrency)
        } else {
            Ok(n)
        },
        None => match host {
            Some(h) => if h == 0 {
                Err(ConfigError::UnknownParallelism)
            } else {
                Ok(h)
            },
            None => Err(ConfigError::UnknownParallelism),
        },
    }
}

/// Number of `true` entries of `s`.
pub open spec fn count_true(s: Seq<bool>) -> nat
    decreases s.len(),
{
    if s.len() == 0 {
        0
    } else {
        count_true(s.drop_last()) + if s.last() {
            1nat
        } else {
            0nat
        }
    }
}

pub proof fn lemma_count_true_bounded(s: Seq<bool>)
    ensures
        count_true(s) <= s.len(),
    decreases s.len(),
{
    if s.len() > 0 {
        lemma_count_true_bounded(s.drop_last());
    }
}

pub proof fn lemma_count_true_push_false(s: Seq<bool>)
    ensures
        count_true(s.push(false)) == count_true(s),
{
    assert(s.push(false).drop_last() =~= s);
}

pub proof fn lemma_count_true_set(s: Seq<bool>, i: int)
    requires
        0 <= i < s.len(),
        !s[i],
    ensures
        count_true(s.update(i, true)) == count_true(s) + 1,
    decreases s.len(),
{
    if i < s.len() - 1 {
        assert(s.update(i, true).drop_last() =~= s.drop_last().update(i, true));
        lemma_count_true_set(s.drop_last(), i);
    } else {
        assert(s.update(i, true).drop_last() =~= s.drop_last());
    }
}

pub proof fn lemma_count_true_all(s: Seq<bool>)
    requires
        count_true(s) == s.len(),
    ensures
        forall|i: int| 0 <= i < s.len() ==> #[trigger] s[i],
    decreases s.len(),
{
    if s.len() > 0 {
        lemma_count_true_bounded(s.drop_last());
        lemma_count_true_all(s.drop_last());
        assert forall|i: int| 0 <= i < s.len() implies #[trigger] s[i] by {
            if i < s.len() - 1 {
                assert(s.drop_last()[i] == s[i]);
            }
        }
    }
}

/// The executor's bookkeeping for one run.
///
/// Item `i` is the `i`-th item pulled from the input; `finished[i]` says
/// whether its handler invocation has completed.
pub struct Dispatcher {
    /// Largest number of invocations allowed in flight at once.
    pub concurrency: usize,
    /// One entry per item dispatched so far.
    pub finished: Vec<bool>,
    /// Number of completed invocations, successful or not.
    pub processed: usize,
    /// Number of completed invocations that failed.
    pub failures: usize,
    /// Whether the input has reported its end.
    pub input_exhausted: bool,
    /// The shutdown signal: raised once, after the last completion.
    pub shutdown: bool,
}

impl Dispatcher {
    pub open spec fn wf(&self) -> bool {
        &&& self.concurrency >= 1
        &&& self.processed == count_true(self.finished@)
        &&& self.processed <= self.finished@.len()
        &&& self.failures <= self.processed
        &&& self.finished@.len() - self.processed <= self.concurrency
        &&& self.shutdown ==> self.input_exhausted && self.processed == self.finished@.len()
    }

    /// What this bookkeeping says of the run.
    pub open spec fn state(&self) -> RunState {
        RunState {
            concurrency: self.concurrency as nat,
            finished: self.finished@,
            processed: self.processed as nat,
            failures: self.failures as nat,
            input_exhausted: self.input_exhausted,
            shutdown: self.shutdown,
        }
    }

    /// Number of items dispatched so far.
    pub open spec fn dispatched(&self) -> nat {
        self.finished@.len()
    }

    /// Number of invocations currently in flight.
    pub open spec fn in_flight(&self) -> int {
        self.finished@.len() - self.processed
    }

    /// Whether item `index` has been dispatched and has not completed.
    pub open spec fn is_in_flight(&self, index: int) -> bool {
        0 <= index < self.finished@.len() && !self.finished@[index]
    }

    pub open spec fn can_pull(&self) -> bool {
        &&& !self.shutdown
        &&& !self.input_exhausted
        &&& self.in_flight() < self.concurrency
        &&& self.finished@.len() < usize::MAX
    }

    pub open spec fn next_step_spec(&self) -> Step {
        if self.shutdown {
            Step::Finished
        } else if self.can_pull() {
            Step::Pull
        } else if self.in_flight() > 0 {
            Step::AwaitCompletion
        } else if self.input_exhausted {
            Step::SignalShutdown
        } else {
            // only reachable once `usize::MAX` items have been dispatched
            Step::AwaitCompletion
        }
    }

    /// `next` is this state after the invocation of item `index` completed
    /// with `outcome`.
    pub open spec fn completion_of(&self, index: int, outcome: Outcome, next: Dispatcher) -> bool {
        &&& next.finished@ == self.finished@.update(index, true)
        &&& next.processed == self.processed + 1
        &&& next.failures == self.failures + if outcome == Outcome::Failure {
            1int
        } else {
            0int
        }
        &&& next.concurrency == self.concurrency
        &&& next.input_exhausted == self.input_exhausted
        &&& next.shutdown == self.shutdown
    }

    /// Starts a run with the concurrency that `resolve_concurrency` gives.
    pub fn new(requested: Option<usize>, host: Option<usize>) -> (r: Result<Dispatcher, ConfigError>)
        ensures
            match resolve_concurrency_spec(requested, host) {
                Ok(n) => r is Ok && r->Ok_0.concurrency == n && r->Ok_0.finished@.len() == 0
                    && r->Ok_0.processed == 0 && r->Ok_0.failures == 0 && !r->Ok_0.input_exhausted
                    && !r->Ok_0.shutdown && r->Ok_0.wf() && r->Ok_0.state() == start(n as nat),
                Err(e) => r == Err::<Dispatcher, ConfigError>(e),
            },
    {
        match resolve_concurrency(requested, host) {
            Ok(n) => Ok(
                Dispatcher {
                    concurrency: n,
                    finished: Vec::new(),
                    processed: 0,
                    failures: 0,
                    input_exhausted: false,
                    shutdown: false,
                },
            ),
            Err(e) => Err(e),
        }
    }
    /// What the runner has to do next.
    pub fn next_step(&self) -> (r: Step)
        requires
            self.wf(),
        ensures
            r == self.next_step_spec(),
            r == self.state().next(),
    {
        let len = self.finished.len();
        if self.shutdown {
            Step::Finished
        } else if !self.input_exhausted && len - self.processed < self.concurrency && len
            < usize::MAX {
            Step::Pull
        } else if len - self.processed > 0 {
            Step::AwaitCompletion
        } else if self.input_exhausted {
            Step::SignalShutdown
        } else {
            Step::AwaitCompletion
        }
    }

    /// Records that the next item was pulled and its handler started, and
    /// returns the item's index. Refused (`None`, nothing changed) unless
    /// the next step is to pull.
    pub fn dispatch(&mut self) -> (r: Option<usize>)
        requires
            old(self).wf(),
        ensures
            final(self).wf(),
            old(self).can_pull() ==> r == Some(old(self).finished@.len() as usize)
                && final(self).finished@ == old(self).finished@.push(false)
                && final(self).processed == old(self).processed
                && final(self).failures == old(self).failures
                && final(self).concurrency == old(self).concurrency
                && final(self).input_exhausted == old(self).input_exhausted
                && final(self).shutdown == old(self).shutdown,
            !old(self).can_pull() ==> r is None && *final(self) == *old(self),
            old(self).can_pull() ==> final(self).state() == old(self).state().after(Event::Pulled),
    {
        let len = self.finished.len();
        if !self.shutdown && !self.input_exhausted && len - self.processed < self.concurrency
            && len < usize::MAX {
            proof {
                lemma_count_true_push_false(self.finished@);
            }
            self.finished.push(false);
            Some(len)
        } else {
            None
        }
    }

    /// Records that the input has no more items.
    pub fn end_of_input(&mut self)
        requires
            old(self).wf(),
        ensures
            final(self).wf(),
            final(self).input_exhausted,
            final(self).state() == old(self).state().after(Event::InputEnded),
            final(self).finished@ == old(self).finished@,
            final(self).processed == old(self).processed,
            final(self).failures == old(self).failures,
            final(self).concurrency == old(self).concurrency,
            final(self).shutdown == old(self).shutdown,
    {
        self.input_exhausted = true;
    }

    /// Records that the invocation of item `index` completed with
    /// `outcome`. Counted once whatever the outcome; refused when the item is
    /// not in flight.
    pub fn complete(&mut self, index: usize, outcome: Outcome) -> (r: Result<(), CompletionError>)
        requires
            old(self).wf(),
        ensures
            final(self).wf(),
            old(self).is_in_flight(index as int) ==> r is Ok && old(self).completion_of(
                index as int,
                outcome,
                *final(self),
            ),
            old(self).is_in_flight(index as int) ==> final(self).state() == old(self).state().after(
                Event::Completed(index as int, outcome),
            ),
            !old(self).is_in_flight(index as int) ==> r == Err::<(), CompletionError>(
                CompletionError::NotInFlight,
            ) && *final(self) == *old(self),
    {
        if index < self.finished.len() && !self.finished[index] {
            proof {
                lemma_count_true_set(self.finished@, index as int);
                lemma_count_true_bounded(self.finished@.update(index as int, true));
            }
            self.finished.set(index, true);
            self.processed = self.processed + 1;
            if outcome == Outcome::Failure {
                self.failures = self.failures + 1;
            }
            Ok(())
        } else {
            Err(CompletionError::NotInFlight)
        }
    }

    /// Raises the shutdown signal when every dispatched item has completed
    /// and the input is exhausted; returns whether it was raised by this
    /// call. The signal is raised at most once and never lowered.
    pub fn signal_shutdown(&mut self) -> (r: bool)
        requires
            old(self).wf(),
        ensures
            final(self).wf(),
            r == (old(self).next_step_spec() == Step::SignalShutdown),
            r ==> final(self).shutdown,
            r ==> final(self).state() == old(self).state().after(Event::Signalled),
            old(self).shutdown ==> final(self).shutdown,
            final(self).finished@ == old(self).finished@,
            final(self).processed == old(self).processed,
            final(self).failures == old(self).failures,
            final(self).concurrency == old(self).concurrency,
            final(self).input_exhausted == old(self).input_exhausted,
            !r ==> final(self).shutdown == old(self).shutdown,
    {
        if self.next_step() == Step::SignalShutdown {
            self.shutdown = true;
            true
        } else {
            false
        }
    }

}

/// What `resolve_concurrency` returns.
pub open spec fn resolve_concurrency_spec(requested: Option<usize>, host: Option<usize>) -> Result<
    usize,
    ConfigError,
> {
    match requested {
        Some(n) => if n == 0 {
            Err(ConfigError::ZeroConcurrency)
        } else {
            Ok(n)
        },
        None => match host {
            Some(h) => if h == 0 {
                Err(ConfigError::UnknownParallelism)
            } else {
                Ok(h)
            },
            None => Err(ConfigError::UnknownParallelism),
        },
    }
}

pub proof fn lemma_count_true_all_true(s: Seq<bool>)
    requires
        forall|i: int| 0 <= i < s.len() ==> #[trigger] s[i],
    ensures
        count_true(s) == s.len(),
    decreases s.len(),
{
    if s.len() > 0 {
        assert forall|i: int| 0 <= i < s.drop_last().len() implies #[trigger] s.drop_last()[i] by {
            assert(s[i]);
        }
        lemma_count_true_all_true(s.drop_last());
    }
}

/// Once the shutdown signal is raised, every dispatched item has completed,
/// and the processed count equals the number of items dispatched: each item
/// was handled, and counted, exactly once.
pub proof fn lemma_shutdown_after_all_completed(d: Dispatcher)
    requires
        d.wf(),
        d.shutdown,
    ensures
        d.input_exhausted,
        d.processed == d.dispatched(),
        forall|i: int| 0 <= i < d.dispatched() ==> #[trigger] d.finished@[i],
{
    lemma_count_true_all(d.finished@);
}

/// When the runner is told to wait, some invocation is in flight, so the
/// wait ends; when nothing is in flight and the input is exhausted, the next
/// step is to raise the shutdown signal.
pub proof fn lemma_wait_only_on_work(d: Dispatcher)
    requires
        d.wf(),
        d.dispatched() < usize::MAX,
    ensures
        d.next_step_spec() == Step::AwaitCompletion ==> exists|i: int| d.is_in_flight(i),
        !d.shutdown && d.input_exhausted && d.in_flight() == 0 ==> d.next_step_spec()
            == Step::SignalShutdown,
{
    if d.next_step_spec() == Step::AwaitCompletion {
        assert(d.in_flight() > 0);
        if forall|i: int| 0 <= i < d.finished@.len() ==> #[trigger] d.finished@[i] {
            lemma_count_true_all_true(d.finished@);
        }
        let i = choose|i: int| 0 <= i < d.finished@.len() && !d.finished@[i];
        assert(d.is_in_flight(i));
    }
}

/// The number of invocations in flight never exceeds the concurrency.
pub proof fn lemma_in_flight_bounded(d: Dispatcher)
    requires
        d.wf(),
    ensures
        0 <= d.in_flight() <= d.concurrency,
{
}

/// While fewer than `concurrency` invocations are in flight and the input
/// has items left, the next item is started without waiting for any
/// completion: with a concurrency of at least `n`, the first `n` items are
/// all in flight together.
pub proof fn lemma_pull_below_capacity(d: Dispatcher)
    requires
        d.wf(),
        !d.shutdown,
        !d.input_exhausted,
        d.in_flight() < d.concurrency,
        d.dispatched() < usize::MAX,
    ensures
        d.next_step_spec() == Step::Pull,
{
}

/// A failed invocation is counted like a successful one: the two resulting
/// states differ only in the failure count, so the run goes on the same way.
pub proof fn lemma_failure_isolated(d: Dispatcher, index: int, failed: Dispatcher, succeeded: Dispatcher)
    requires
        d.wf(),
        d.is_in_flight(index),
        d.completion_of(index, Outcome::Failure, failed),
        d.completion_of(index, Outcome::Success, succeeded),
    ensures
        failed.finished@ == succeeded.finished@,
        failed.processed == succeeded.processed,
        failed.failures == succeeded.failures + 1,
        failed.next_step_spec() == succeeded.next_step_spec(),
{
}

} // verus!
