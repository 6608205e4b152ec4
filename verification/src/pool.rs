//! The forks as the diners' threads share them: one atomic flag per fork,
//! `true` while the fork lies on the table.
//!
//! Claiming a fork is one compare-and-exchange and putting it back is one
//! store, so each is a single indivisible operation, and does in its moment
//! what the operation of the same name does on the forks of a single owner.
//! What a thread reads from a flag depends on what the other threads did a
//! moment before, so nothing is promised here of the answers themselves: the
//! model says what every sequence of answers leads to.

use vstd::prelude::*;
use std::sync::atomic::{AtomicBool, Ordering};

verus! {

/// A pool of forks shared between threads, addressed by index.
pub struct ForkPool {
    forks: Vec<AtomicBool>,
}

/// What a compare-and-exchange from free to taken says of a claim: the
/// caller has the fork exactly when the exchange took place.
pub fn exchanged(outcome: Result<bool, bool>) -> (claimed: bool)
    ensures
        claimed == outcome is Ok,
{
    outcome.is_ok()
}

impl ForkPool {
    /// The number of forks in the pool.
    pub closed spec fn spec_len(&self) -> nat {
        self.forks@.len()
    }

    /// A pool of `count` forks, all of them on the table.
    pub fn new(count: usize) -> (pool: ForkPool)
        ensures
            pool.spec_len() == count,
    {
        let mut forks: Vec<AtomicBool> = Vec::new();
        let mut laid: usize = 0;
        while laid < count
            invariant
                laid <= count,
                forks@.len() == laid,
            decreases count - laid,
        {
            forks.push(AtomicBool::new(true));
            laid += 1;
        }
        ForkPool { forks }
    }

    /// The number of forks in the pool.
    pub fn len(&self) -> (count: usize)
        ensures
            count == self.spec_len(),
    {
        self.forks.len()
    }

    /// Tries once to take the fork with index `fork` off the table, and says
    /// whether the caller now has it. The flag is flipped from free to taken
    /// in one indivisible operation, so of two threads that try at once at
    /// most one is told that it has the fork.
    pub fn try_claim(&self, fork: usize) -> (claimed: bool)
        requires
            fork < self.spec_len(),
    {
        exchanged(
            self.forks[fork].compare_exchange(true, false, Ordering::SeqCst, Ordering::SeqCst),
        )
    }

    /// Puts the fork with index `fork` back on the table, whoever had it.
    pub fn release(&self, fork: usize)
        requires
            fork < self.spec_len(),
    {
        self.forks[fork].store(true, Ordering::SeqCst);
    }

    /// Whether the fork with index `fork` lay on the table at the moment of
    /// asking.
    pub fn is_free(&self, fork: usize) -> (free: bool)
        requires
            fork < self.spec_len(),
    {
        self.forks[fork].load(Ordering::SeqCst)
    }
}

} // verus!
