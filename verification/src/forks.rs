//! The forks of a table in the hands of a single owner.
//!
//! Each operation here is what one indivisible operation on the shared pool
//! does when nothing else happens in between, and so it can be stated
//! exactly: a claim takes the fork if and only if it lies on the table, and a
//! release puts it back whoever had it.

use vstd::prelude::*;

verus! {

/// A row of forks, each either on the table or taken.
#[derive(Debug)]
pub struct Forks {
    free: Vec<bool>,
}

impl View for Forks {
    type V = Seq<bool>;

    /// For each fork, whether it lies on the table.
    closed spec fn view(&self) -> Seq<bool> {
        self.free@
    }
}

impl Clone for Forks {
    /// A second row of forks in the same state.
    fn clone(&self) -> (copy: Forks)
        ensures
            copy@ == self@,
    {
        Forks { free: self.free.clone() }
    }
}

impl Forks {
    /// `count` forks, all of them on the table.
    pub fn new(count: usize) -> (forks: Forks)
        ensures
            forks@ == Seq::new(count as nat, |fork: int| true),
    {
        let mut free: Vec<bool> = Vec::new();
        let mut laid: usize = 0;
        while laid < count
            invariant
                laid <= count,
                free@.len() == laid,
                forall|fork: int| 0 <= fork < laid ==> free@[fork],
            decreases count - laid,
        {
            free.push(true);
            laid += 1;
        }
        let forks = Forks { free };
        forks
    }

    /// The number of forks.
    pub fn len(&self) -> (count: usize)
        ensures
            count == self@.len(),
    {
        self.free.len()
    }

    /// Whether the fork with index `fork` lies on the table.
    pub fn is_free(&self, fork: usize) -> (free: bool)
        requires
            fork < self@.len(),
        ensures
            free == self@[fork as int],
    {
        self.free[fork]
    }

    /// Tries once to take the fork with index `fork`. The claim succeeds
    /// exactly when the fork lay on the table, and either way the fork is
    /// taken afterwards.
    pub fn try_claim(&mut self, fork: usize) -> (claimed: bool)
        requires
            fork < old(self)@.len(),
        ensures
            claimed == old(self)@[fork as int],
            final(self)@ == old(self)@.update(fork as int, false),
    {
        let claimed = self.free[fork];
        self.free.set(fork, false);
        claimed
    }

    /// Puts the fork with index `fork` back on the table, whether or not
    /// anyone had it.
    pub fn release(&mut self, fork: usize)
        requires
            fork < old(self)@.len(),
        ensures
            final(self)@ == old(self)@.update(fork as int, true),
    {
        self.free.set(fork, true);
    }
}

} // verus!
