//! Queue numbers: a letter for the mode and a running number.

use vstd::prelude::*;
use vstd::string::*;
use crate::error::SchedulerError;
use crate::models::ChargingMode;
use crate::text::{decimal, decimal_string, differ_first_at, lemma_decimal_ascends, precedes};

verus! {

/// The queue number of the `n`-th request of a mode: `F` or `T`, then `n` in
/// decimal.
pub open spec fn queue_label(mode: ChargingMode, n: nat) -> Seq<char> {
    seq![mode.prefix()] + decimal(n)
}

/// Queue numbers of one mode come in the order of their running numbers:
/// the number handed out earlier comes before the one handed out later.
pub proof fn lemma_queue_numbers_ascend(mode: ChargingMode, n: nat, m: nat)
    requires
        n < m,
    ensures
        precedes(queue_label(mode, n), queue_label(mode, m)),
{
    lemma_decimal_ascends(n, m);
    let x = decimal(n);
    let y = decimal(m);
    let a = queue_label(mode, n);
    let b = queue_label(mode, m);
    if x.len() == y.len() {
        let k = choose|k: int| differ_first_at(x, y, k) && (x[k] as int) < (y[k] as int);
        assert(differ_first_at(a, b, k + 1)) by {
            assert forall|j: int| 0 <= j < k + 1 implies a[j] == b[j] by {
                if j > 0 {
                    assert(x[j - 1] == y[j - 1]);
                }
            }
        }
        assert((a[k + 1] as int) < (b[k + 1] as int));
    }
}

fn label_string(mode: ChargingMode, n: u128) -> (label: String)
    ensures
        label@ == queue_label(mode, n as nat),
{
    proof {
        reveal_strlit("F");
        reveal_strlit("T");
    }
    let mut label = match mode {
        ChargingMode::Fast => String::from_str("F"),
        ChargingMode::Slow => String::from_str("T"),
    };
    assert(label@ =~= seq![mode.prefix()]);
    let digits = decimal_string(n);
    label.append(digits.as_str());
    label
}

/// The queue number of the request that finds `position` requests of its
/// mode before it.
pub fn generate_queue_number(mode: ChargingMode, position: usize) -> (label: String)
    ensures
        label@ == queue_label(mode, (position + 1) as nat),
{
    label_string(mode, position as u128 + 1)
}

/// Hands out the queue numbers of each mode in turn, from 1.
#[derive(Debug, Clone, Copy, PartialEq, Eq, Structural)]
pub struct NumberGenerator {
    fast: u32,
    slow: u32,
}

impl NumberGenerator {
    /// How many numbers of the mode have been handed out since the last
    /// reset.
    pub closed spec fn issued(self, mode: ChargingMode) -> nat {
        match mode {
            ChargingMode::Fast => self.fast as nat,
            ChargingMode::Slow => self.slow as nat,
        }
    }

    /// Whether the generator can still hand out a number of the mode: it
    /// has handed out fewer than the largest `u32`.
    pub open spec fn has_next(self, mode: ChargingMode) -> bool {
        self.issued(mode) < u32::MAX
    }

    /// A generator that has handed out nothing.
    pub fn new() -> (generator: Self)
        ensures
            generator.issued(ChargingMode::Fast) == 0,
            generator.issued(ChargingMode::Slow) == 0,
    {
        NumberGenerator { fast: 0, slow: 0 }
    }

    /// A generator that goes on behind the given counts, as after a restart
    /// of the station.
    pub fn resuming(fast: u32, slow: u32) -> (generator: Self)
        ensures
            generator.issued(ChargingMode::Fast) == fast,
            generator.issued(ChargingMode::Slow) == slow,
    {
        NumberGenerator { fast, slow }
    }

    /// How many numbers of the mode have been handed out since the last
    /// reset.
    pub fn issued_count(&self, mode: ChargingMode) -> (n: u32)
        ensures
            n == self.issued(mode),
    {
        match mode {
            ChargingMode::Fast => self.fast,
            ChargingMode::Slow => self.slow,
        }
    }

    /// Hands out the next number of the mode: the count of the mode goes up
    /// by one, that of the other mode stays, and the number is the new count
    /// behind the mode's letter. Once a count has reached the largest `u32`
    /// the generator stays as it is and answers `CounterExhausted`.
    pub fn generate_number(&mut self, mode: ChargingMode) -> (r: Result<String, SchedulerError>)
        ensures
            forall|other: ChargingMode| other != mode ==>
                final(self).issued(other) == old(self).issued(other),
            match r {
                Ok(label) => {
                    &&& old(self).has_next(mode)
                    &&& final(self).issued(mode) == old(self).issued(mode) + 1
                    &&& label@ == queue_label(mode, final(self).issued(mode))
                },
                Err(e) => {
                    &&& e == SchedulerError::CounterExhausted
                    &&& !old(self).has_next(mode)
                    &&& *final(self) == *old(self)
                },
            },
    {
        let current = match mode {
            ChargingMode::Fast => self.fast,
            ChargingMode::Slow => self.slow,
        };
        if current == u32::MAX {
            return Err(SchedulerError::CounterExhausted);
        }
        let next: u32 = current + 1;
        match mode {
            ChargingMode::Fast => {
                self.fast = next;
            },
            ChargingMode::Slow => {
                self.slow = next;
            },
        }
        Ok(label_string(mode, next as u128))
    }

    /// Starts the numbers of one mode again from 1.
    pub fn reset_counter(&mut self, mode: ChargingMode)
        ensures
            final(self).issued(mode) == 0,
            forall|other: ChargingMode| other != mode ==>
                final(self).issued(other) == old(self).issued(other),
    {
        match mode {
            ChargingMode::Fast => {
                self.fast = 0;
            },
            ChargingMode::Slow => {
                self.slow = 0;
            },
        }
    }

    /// Starts the numbers of both modes again from 1.
    pub fn reset_all(&mut self)
        ensures
            forall|mode: ChargingMode| final(self).issued(mode) == 0,
    {
        self.fast = 0;
        self.slow = 0;
    }
}

} // verus!
