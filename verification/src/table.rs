//! A table that can be run: the state machine of the model, held in memory
//! and moved one turn at a time.
//!
//! The table owns its forks, so each turn is indivisible by construction, and
//! a caller that picks the seats in any order it likes plays the part of the
//! scheduler.

use vstd::prelude::*;
use crate::diner::{Action, Stage};
use crate::forks::Forks;
use crate::laws::{
    lemma_free_iff_unheld,
    lemma_initial_consistent,
    lemma_one_holder,
    lemma_some_diner_can_move,
    lemma_step_consistent,
};
use crate::model::TableState;
use crate::ring::{first_fork, second_fork, valid_ring};
use crate::rounds::{in_order, round};

verus! {

/// A table of diners and forks.
#[derive(Debug)]
pub struct Table {
    forks: Forks,
    stages: Vec<Stage>,
}

impl View for Table {
    type V = TableState;

    closed spec fn view(&self) -> TableState {
        TableState { forks: self.forks@, stages: self.stages@ }
    }
}

impl Clone for Table {
    /// A second table in the same state, which then moves on its own.
    fn clone(&self) -> (copy: Table)
        ensures
            copy@ == self@,
    {
        Table { forks: self.forks.clone(), stages: self.stages.clone() }
    }
}

/// The seats of a schedule as the model counts them.
pub open spec fn seats_of(schedule: Seq<usize>) -> Seq<int> {
    Seq::new(schedule.len(), |turn: int| schedule[turn] as int)
}

impl Table {
    /// A table is well formed when its state is consistent: every fork is in
    /// at most one hand, and lies on the table exactly when it is in none.
    pub open spec fn wf(&self) -> bool {
        self@.consistent()
    }

    /// Lays a table of `seats` seats: every fork free, every diner about to
    /// reach for its first fork.
    pub fn new(seats: usize) -> (table: Table)
        requires
            valid_ring(seats as int),
        ensures
            table.wf(),
            table@ == TableState::initial(seats as int),
    {
        let forks = Forks::new(seats);
        let mut stages: Vec<Stage> = Vec::new();
        let mut laid: usize = 0;
        while laid < seats
            invariant
                laid <= seats,
                stages@.len() == laid,
                forall|seat: int| 0 <= seat < laid ==> stages@[seat] == Stage::ClaimFirst,
            decreases seats - laid,
        {
            stages.push(Stage::ClaimFirst);
            laid += 1;
        }
        let table = Table { forks, stages };
        proof {
            assert(table@.stages =~= TableState::initial(seats as int).stages);
            lemma_initial_consistent(seats as int);
        }
        table
    }

    /// The number of seats, which is also the number of forks.
    pub fn seats(&self) -> (seats: usize)
        ensures
            seats == self@.seats(),
    {
        self.stages.len()
    }

    /// Whether the fork with index `fork` lies on the table.
    pub fn is_free(&self, fork: usize) -> (free: bool)
        requires
            self.wf(),
            fork < self@.seats(),
        ensures
            free == self@.forks[fork as int],
    {
        self.forks.is_free(fork)
    }

    /// The stage that the diner at `seat` has reached.
    pub fn stage(&self, seat: usize) -> (stage: Stage)
        requires
            seat < self@.seats(),
        ensures
            stage == self@.stages[seat as int],
    {
        self.stages[seat]
    }

    /// The action that the diner at `seat` performs on its next turn.
    pub fn action(&self, seat: usize) -> (action: Action)
        requires
            seat < self@.seats(),
        ensures
            action == self@.stages[seat as int].spec_action(seat, self@.seats() as usize),
    {
        self.stages[seat].action(seat, self.stages.len())
    }

    /// Whether the diner at `seat` has the fork with index `fork` in hand.
    pub fn holds(&self, seat: usize, fork: usize) -> (held: bool)
        requires
            seat < self@.seats(),
        ensures
            held == self@.holds(seat as int, fork as int),
    {
        self.stages[seat].holds(seat, self.stages.len(), fork)
    }

    /// The seat of the diner that has the fork with index `fork` in hand, if
    /// any has. There is never more than one.
    pub fn holder(&self, fork: usize) -> (holder: Option<usize>)
        requires
            self.wf(),
            fork < self@.seats(),
        ensures
            match holder {
                Some(seat) => {
                    &&& !self@.forks[fork as int]
                    &&& forall|other: int| self@.holds(other, fork as int) <==> other == seat
                },
                None => {
                    &&& self@.forks[fork as int]
                    &&& forall|other: int| !self@.holds(other, fork as int)
                },
            },
    {
        let seats = self.stages.len();
        let other = if fork == 0 {
            seats - 1
        } else {
            fork - 1
        };
        proof {
            lemma_free_iff_unheld(self@, fork as int);
            if self@.holds(fork as int, fork as int) {
                assert forall|seat: int| self@.holds(seat, fork as int) implies seat == fork by {
                    lemma_one_holder(self@, seat, fork as int, fork as int);
                }
            }
            if self@.holds(other as int, fork as int) {
                assert forall|seat: int| self@.holds(seat, fork as int) implies seat == other by {
                    lemma_one_holder(self@, seat, other as int, fork as int);
                }
            }
        }
        if self.holds(fork, fork) {
            Some(fork)
        } else if self.holds(other, fork) {
            Some(other)
        } else {
            None
        }
    }

    /// Whether the diner at `seat` cannot move: it polls a fork that is in
    /// someone's hand.
    pub fn is_blocked(&self, seat: usize) -> (blocked: bool)
        requires
            self.wf(),
            seat < self@.seats(),
        ensures
            blocked == self@.blocked(seat as int),
    {
        let seats = self.stages.len();
        match self.stages[seat] {
            Stage::ClaimFirst => !self.forks.is_free(first_fork(seat, seats)),
            Stage::ClaimSecond => !self.forks.is_free(second_fork(seat, seats)),
            _ => false,
        }
    }

    /// The lowest seat whose diner can move. There always is one.
    pub fn first_movable(&self) -> (seat: usize)
        requires
            self.wf(),
        ensures
            seat < self@.seats(),
            !self@.blocked(seat as int),
            forall|lower: int| 0 <= lower < seat ==> self@.blocked(lower),
    {
        let seats = self.stages.len();
        let mut seat: usize = 0;
        loop
            invariant
                self.wf(),
                seats == self@.seats(),
                seat < seats,
                forall|lower: int| 0 <= lower < seat ==> self@.blocked(lower),
            decreases seats - seat,
        {
            if !self.is_blocked(seat) {
                return seat;
            }
            proof {
                lemma_some_diner_can_move(self@);
            }
            seat += 1;
        }
    }

    /// Gives the diner at `seat` one turn, and says whether it moved. A
    /// blocked diner polls in vain and the table stays as it is.
    pub fn step(&mut self, seat: usize) -> (moved: bool)
        requires
            old(self).wf(),
            seat < old(self)@.seats(),
        ensures
            final(self).wf(),
            final(self)@ == old(self)@.step(seat as int),
            moved == !old(self)@.blocked(seat as int),
    {
        let seats = self.stages.len();
        let stage = self.stages[seat];
        let moved = match stage.action(seat, seats) {
            Action::Claim(fork) => self.forks.try_claim(fork),
            Action::Release(fork) => {
                self.forks.release(fork);
                true
            },
            Action::Announce(_) | Action::Pause(_) => true,
        };
        if moved {
            self.stages.set(seat, stage.next(true));
        }
        proof {
            let before = old(self)@;
            let after = before.step(seat as int);
            assert(self@.forks =~= after.forks);
            lemma_step_consistent(before, seat as int);
        }
        moved
    }

    /// Gives every diner one turn, in the order of the seats.
    pub fn round(&mut self)
        requires
            old(self).wf(),
        ensures
            final(self).wf(),
            final(self)@ == round(old(self)@),
    {
        let seats = self.stages.len();
        let mut seat: usize = 0;
        while seat < seats
            invariant
                seat <= seats,
                self.wf(),
                seats == self@.seats(),
                seats == old(self)@.seats(),
                self@ == old(self)@.run(in_order(seat as int)),
            decreases seats - seat,
        {
            self.step(seat);
            proof {
                assert(in_order(seat + 1).drop_last() =~= in_order(seat as int));
            }
            seat += 1;
        }
    }

    /// Gives the diners their turns in the order that `schedule` lists their
    /// seats. A turn for a seat that does not exist changes nothing.
    pub fn run(&mut self, schedule: &Vec<usize>)
        requires
            old(self).wf(),
        ensures
            final(self).wf(),
            final(self)@ == old(self)@.run(seats_of(schedule@)),
    {
        let seats = self.stages.len();
        let mut turn: usize = 0;
        while turn < schedule.len()
            invariant
                turn <= schedule.len(),
                self.wf(),
                seats == self@.seats(),
                self@ == old(self)@.run(seats_of(schedule@.take(turn as int))),
            decreases schedule.len() - turn,
        {
            let seat = schedule[turn];
            if seat < seats {
                self.step(seat);
            }
            proof {
                let done = seats_of(schedule@.take(turn as int));
                let more = seats_of(schedule@.take(turn + 1));
                assert(more.drop_last() =~= done);
            }
            turn += 1;
        }
        proof {
            assert(schedule@.take(turn as int) =~= schedule@);
        }
    }
}

} // verus!
