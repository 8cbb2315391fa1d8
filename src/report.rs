//! The progress reporter's decisions: which display a run gets, and what each
//! poll of the telemetry renders.
//!
//! The runner wakes the reporter at a fixed cadence, hands it the processed
//! count, the elapsed time and the shutdown signal, and draws the frame it
//! returns. The frame drawn after the signal is seen is the last one.

use vstd::prelude::*;

verus! {

/// How progress is displayed, chosen once before the first item is dispatched.
#[derive(Debug, Clone, Copy, PartialEq, Eq, Structural)]
pub enum ProgressMode {
    /// The number of items is known: a bar that fills up to `total`.
    Bounded { total: usize },
    /// The number of items is unknown: a spinner.
    Unbounded,
}

impl ProgressMode {
    /// Picks the display from the upper bound that the input reports on its
    /// length, if any.
    pub fn from_size_hint(upper: Option<usize>) -> (r: ProgressMode)
        ensures
            match upper {
                Some(n) => r == ProgressMode::Bounded { total: n },
                None => r == ProgressMode::Unbounded,
            },
    {
        match upper {
            Some(n) => ProgressMode::Bounded { total: n },
            None => ProgressMode::Unbounded,
        }
    }
}

/// Throughput in hundredths of an item per second, rounded to the nearest
/// hundredth, halves up: `count` items in `elapsed_millis` milliseconds, and
/// zero when no time has elapsed.
pub open spec fn rate_hundredths_spec(count: nat, elapsed_millis: nat) -> nat {
    if elapsed_millis == 0 {
        0
    } else {
        let scaled = count * 100_000;
        scaled / elapsed_millis + if 2 * (scaled % elapsed_millis) >= elapsed_millis {
            1nat
        } else {
            0nat
        }
    }
}

/// Computes `rate_hundredths_spec`.
pub fn rate_hundredths(count: usize, elapsed_millis: u128) -> (r: u128)
    ensures
        r == rate_hundredths_spec(count as nat, elapsed_millis as nat),
{
    if elapsed_millis == 0 {
        0
    } else {
        assert(count * 100_000 <= u64::MAX * 100_000) by (nonlinear_arith)
            requires
                count <= u64::MAX,
        ;
        let scaled = (count as u128) * 100_000;
        let quotient = scaled / elapsed_millis;
        let remainder = scaled % elapsed_millis;
        assert(quotient <= scaled) by (nonlinear_arith)
            requires
                quotient == scaled / elapsed_millis,
                elapsed_millis > 0,
        ;
        if remainder >= elapsed_millis - remainder {
            quotient + 1
        } else {
            quotient
        }
    }
}

/// What one poll renders.
#[derive(Debug, Clone, Copy, PartialEq, Eq, Structural)]
pub struct Frame {
    /// The processed count that was read.
    pub count: usize,
    /// How far the bar moves: the growth of the count since the previous
    /// poll in bounded mode, never negative; always zero for the spinner.
    pub advance: usize,
    /// Throughput in hundredths of an item per second.
    pub rate_hundredths: u128,
    /// Whether this is the last frame of the run.
    pub is_final: bool,
}

/// The reporter's state between polls.
pub struct Reporter {
    pub mode: ProgressMode,
    /// The count read by the previous poll.
    pub last_count: usize,
    /// Set by the poll that saw the shutdown signal; no frame follows.
    pub terminated: bool,
}

impl Reporter {
    /// The frame that a poll renders when it reads `count` after
    /// `elapsed_millis` milliseconds, with the shutdown signal `shutdown`.
    pub open spec fn frame_spec(&self, count: usize, elapsed_millis: u128, shutdown: bool) -> Frame {
        Frame {
            count,
            advance: match self.mode {
                ProgressMode::Bounded { .. } => if count >= self.last_count {
                    (count - self.last_count) as usize
                } else {
                    0
                },
                ProgressMode::Unbounded => 0,
            },
            rate_hundredths: rate_hundredths_spec(count as nat, elapsed_millis as nat) as u128,
            is_final: shutdown,
        }
    }

    pub fn new(mode: ProgressMode) -> (r: Reporter)
        ensures
            r.mode == mode,
            r.last_count == 0,
            !r.terminated,
    {
        Reporter { mode, last_count: 0, terminated: false }
    }

    /// One poll of the telemetry. A running reporter returns the frame to
    /// render and remembers `count`; when `shutdown` is seen, that frame is
    /// the last one and the reporter terminates. A terminated reporter
    /// renders nothing.
    pub fn poll(&mut self, count: usize, elapsed_millis: u128, shutdown: bool) -> (r: Option<Frame>)
        ensures
            old(self).terminated ==> r is None && *final(self) == *old(self),
            !old(self).terminated ==> r == Some(old(self).frame_spec(count, elapsed_millis, shutdown))
                && final(self).last_count == count && final(self).terminated == shutdown
                && final(self).mode == old(self).mode,
    {
        if self.terminated {
            return None;
        }
        let advance = match self.mode {
            ProgressMode::Bounded { .. } => if count >= self.last_count {
                count - self.last_count
            } else {
                0
            },
            ProgressMode::Unbounded => 0,
        };
        let frame = Frame {
            count,
            advance,
            rate_hundredths: rate_hundredths(count, elapsed_millis),
            is_final: shutdown,
        };
        self.last_count = count;
        self.terminated = shutdown;
        Some(frame)
    }
}

/// The poll that sees the shutdown signal renders one final frame carrying the
/// count it read, and every later poll renders nothing: the reporter's loop
/// ends.
pub proof fn lemma_reporter_terminates(r: Reporter, count: usize, elapsed_millis: u128)
    requires
        !r.terminated,
    ensures
        r.frame_spec(count, elapsed_millis, true).is_final,
        r.frame_spec(count, elapsed_millis, true).count == count,
{
}

/// A bounded display moves its bar by exactly the growth of the count; the
/// spinner of an unbounded display never does.
pub proof fn lemma_mode_selects_display(r: Reporter, count: usize, elapsed_millis: u128, shutdown: bool)
    ensures
        r.mode is Bounded && count >= r.last_count ==> r.frame_spec(
            count,
            elapsed_millis,
            shutdown,
        ).advance == count - r.last_count,
        r.mode is Unbounded ==> r.frame_spec(count, elapsed_millis, shutdown).advance == 0,
{
}

} // verus!
