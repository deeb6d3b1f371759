use vstd::prelude::*;

verus! {

/// How many lines pass between two progress reports.
pub const UPDATE_INTERVAL: usize = 100000;

/// What a progress display should show next.
#[derive(Debug, PartialEq, Eq, Structural)]
pub enum Report {
    /// Nothing to show.
    Nothing,
    /// The count of tokens so far and the rate.
    Rate { tokens: usize, per_second: usize },
    /// Advance the spinner by one step.
    Tick,
    /// The work is over and no rate could be measured.
    Done,
}

/// The counts behind a progress display over a file tokenized line by line.
pub struct Progress {
    pub line_count: usize,
    pub token_count: usize,
    pub update_interval: usize,
}

/// Tokens per second, from a count and the nanoseconds part of the elapsed
/// time; 0 where no time was measured, and at most `usize::MAX`.
pub open spec fn rate(tokens: nat, nanos: nat) -> nat {
    if nanos == 0 {
        0
    } else {
        let r = (1_000_000_000 * tokens) / nanos;
        if r > usize::MAX {
            usize::MAX as nat
        } else {
            r
        }
    }
}

impl Progress {
    /// No line seen yet.
    pub fn new() -> (r: Progress)
        ensures
            r.line_count == 0,
            r.token_count == 0,
            r.update_interval == UPDATE_INTERVAL,
    {
        Progress { line_count: 0, token_count: 0, update_interval: UPDATE_INTERVAL }
    }

    /// The rate of tokens per second, given the nanoseconds part of the time
    /// elapsed since the start.
    pub fn tokens_per_second(&self, elapsed_nanos: u32) -> (r: usize)
        ensures
            r == rate(self.token_count as nat, elapsed_nanos as nat),
    {
        if elapsed_nanos > 0 {
            let t = self.token_count as u128;
            assert(1_000_000_000 * t <= 1_000_000_000 * (u64::MAX as u128)) by (nonlinear_arith)
                requires
                    t <= u64::MAX,
            ;
            let r = (1_000_000_000u128 * t) / (elapsed_nanos as u128);
            if r > usize::MAX as u128 {
                usize::MAX
            } else {
                r as usize
            }
        } else {
            0
        }
    }

    /// Counts one more line of `tokens` tokens, and says what to show: every
    /// `update_interval` lines the rate, or a tick where no rate is known.
    pub fn update(&mut self, tokens: usize, elapsed_nanos: u32) -> (r: Report)
        requires
            old(self).update_interval > 0,
            old(self).line_count < usize::MAX,
            old(self).token_count + tokens <= usize::MAX,
        ensures
            final(self).line_count == old(self).line_count + 1,
            final(self).token_count == old(self).token_count + tokens,
            final(self).update_interval == old(self).update_interval,
            final(self).line_count % final(self).update_interval != 0 ==> r == Report::Nothing,
            final(self).line_count % final(self).update_interval == 0 ==> r == (if rate(
                final(self).token_count as nat,
                elapsed_nanos as nat,
            ) > 0 {
                Report::Rate {
                    tokens: final(self).token_count,
                    per_second: rate(final(self).token_count as nat, elapsed_nanos as nat) as usize,
                }
            } else {
                Report::Tick
            }),
    {
        self.line_count = self.line_count + 1;
        self.token_count = self.token_count + tokens;
        if self.line_count % self.update_interval == 0 {
            let per_second = self.tokens_per_second(elapsed_nanos);
            if per_second > 0 {
                Report::Rate { tokens: self.token_count, per_second }
            } else {
                Report::Tick
            }
        } else {
            Report::Nothing
        }
    }

    /// What to show once all lines are done: the rate, or `Done`.
    pub fn finish(&self, elapsed_nanos: u32) -> (r: Report)
        ensures
            r == (if rate(self.token_count as nat, elapsed_nanos as nat) > 0 {
                Report::Rate {
                    tokens: self.token_count,
                    per_second: rate(self.token_count as nat, elapsed_nanos as nat) as usize,
                }
            } else {
                Report::Done
            }),
    {
        let per_second = self.tokens_per_second(elapsed_nanos);
        if per_second > 0 {
            Report::Rate { tokens: self.token_count, per_second }
        } else {
            Report::Done
        }
    }
}

} // verus!
