//! The whole table as a state machine.
//!
//! A state records, for every fork, whether it lies on the table, and for
//! every diner, the stage it has reached. One step is one diner performing
//! the action of its stage, and the forks change only by such steps, one at a
//! time: claiming a fork and putting one back are indivisible. Every order in
//! which the diners may take their turns is a schedule, and the states that
//! schedules lead to from the initial state are all the states the table can
//! ever be in.

use vstd::prelude::*;
use crate::diner::Stage;
use crate::ring::{spec_first_fork, spec_prev_seat, spec_second_fork, valid_ring};

verus! {

/// The state of a table.
pub struct TableState {
    /// For each fork, whether it lies on the table, free to be claimed.
    pub forks: Seq<bool>,
    /// For each seat, the stage its diner has reached.
    pub stages: Seq<Stage>,
}

impl TableState {
    /// The number of seats, which is also the number of forks.
    pub open spec fn seats(self) -> int {
        self.stages.len() as int
    }

    /// A table has as many forks as seats, and at least two of each.
    pub open spec fn well_formed(self) -> bool {
        self.forks.len() == self.stages.len() && valid_ring(self.seats())
    }

    /// The table before anyone has moved: every fork free, every diner about
    /// to reach for its first fork.
    pub open spec fn initial(seats: int) -> TableState {
        TableState {
            forks: Seq::new(seats as nat, |fork: int| true),
            stages: Seq::new(seats as nat, |seat: int| Stage::ClaimFirst),
        }
    }

    /// The fork that the diner at `seat` picks up first.
    pub open spec fn first_of(self, seat: int) -> int {
        spec_first_fork(seat, self.seats())
    }

    /// The fork that the diner at `seat` picks up second.
    pub open spec fn second_of(self, seat: int) -> int {
        spec_second_fork(seat, self.seats())
    }

    /// Whether the diner at `seat` has `fork` in hand.
    pub open spec fn holds(self, seat: int, fork: int) -> bool {
        0 <= seat < self.seats() && self.stages[seat].spec_holds(seat, self.seats(), fork)
    }

    /// The fork that the diner at `seat` polls while it is at a claiming
    /// stage.
    pub open spec fn polled(self, seat: int) -> int {
        if self.stages[seat] == Stage::ClaimFirst {
            self.first_of(seat)
        } else {
            self.second_of(seat)
        }
    }

    /// The fork that the diner at `seat` puts back while it is at a releasing
    /// stage.
    pub open spec fn returned(self, seat: int) -> int {
        if self.stages[seat] == Stage::ReleaseFirst {
            self.first_of(seat)
        } else {
            self.second_of(seat)
        }
    }

    /// Whether the diner at `seat` cannot move: it is at a claiming stage and
    /// the fork it polls is in someone's hand.
    pub open spec fn blocked(self, seat: int) -> bool {
        &&& 0 <= seat < self.seats()
        &&& self.stages[seat].claims()
        &&& !self.forks[self.polled(seat)]
    }

    /// The forks after the diner at `seat` has performed the action of its
    /// stage: a claim takes the polled fork off the table, a release puts the
    /// fork back, and nothing else touches a fork.
    pub open spec fn forks_after(self, seat: int) -> Seq<bool> {
        match self.stages[seat] {
            Stage::ClaimFirst => self.forks.update(self.first_of(seat), false),
            Stage::ClaimSecond => self.forks.update(self.second_of(seat), false),
            Stage::ReleaseFirst => self.forks.update(self.first_of(seat), true),
            Stage::ReleaseSecond => self.forks.update(self.second_of(seat), true),
            _ => self.forks,
        }
    }

    /// One turn of the diner at `seat`. A blocked diner polls in vain and
    /// nothing changes; so it is for a seat that does not exist. Otherwise
    /// the diner performs the action of its stage and moves to the next.
    pub open spec fn step(self, seat: int) -> TableState {
        if 0 <= seat < self.seats() && !self.blocked(seat) {
            TableState {
                forks: self.forks_after(seat),
                stages: self.stages.update(seat, self.stages[seat].spec_next(true)),
            }
        } else {
            self
        }
    }

    /// The state after the diners have taken their turns in the order that
    /// `schedule` lists their seats.
    pub open spec fn run(self, schedule: Seq<int>) -> TableState
        decreases schedule.len(),
    {
        if schedule.len() == 0 {
            self
        } else {
            self.run(schedule.drop_last()).step(schedule.last())
        }
    }

    /// Whether the table can be in this state: some schedule leads to it from
    /// the initial state of a valid ring.
    pub open spec fn reachable(self) -> bool {
        exists|seats: int, schedule: Seq<int>|
            valid_ring(seats) && #[trigger] TableState::initial(seats).run(schedule) == self
    }

    /// Whether `fork` is accounted for: of the two diners who share it, at
    /// most one has it in hand, and it lies on the table exactly when neither
    /// has.
    pub open spec fn fork_accounted(self, fork: int) -> bool {
        let own = self.holds(fork, fork);
        let other = self.holds(spec_prev_seat(fork, self.seats()), fork);
        &&& !(own && other)
        &&& self.forks[fork] <==> !own && !other
    }

    /// A table is consistent when it is well formed and every fork is
    /// accounted for.
    pub open spec fn consistent(self) -> bool {
        &&& self.well_formed()
        &&& forall|fork: int| 0 <= fork < self.seats() ==> self.fork_accounted(fork)
    }

    /// Whether no diner can move.
    pub open spec fn deadlocked(self) -> bool {
        forall|seat: int| 0 <= seat < self.seats() ==> self.blocked(seat)
    }
}

} // verus!
