//! One diner's side of the protocol.
//!
//! A diner goes round and round through four phases: hungry for its first
//! fork, hungry for its second, eating, and releasing. Each phase is made of
//! small stages, one per thing the diner does: a single attempt to claim a
//! fork, a line to print, a pause, a fork to put back. Nothing here touches a
//! fork. A stage names the action that is due, and, given whether a claim
//! succeeded, the stage that follows.

use vstd::prelude::*;
use crate::ring::{first_fork, second_fork, spec_first_fork, spec_second_fork, valid_ring};

verus! {

/// How long a diner eats, in milliseconds.
pub const EATING_MILLIS: u64 = 1000;

/// How long a diner rests between meals, in milliseconds.
pub const RESTING_MILLIS: u64 = 1000;

/// The four phases of a diner's cycle.
#[derive(Clone, Copy, Debug, PartialEq, Eq, Structural)]
pub enum Phase {
    /// Holds nothing and polls its first fork.
    HungryFirst,
    /// Holds its first fork and polls its second.
    HungrySecond,
    /// Holds both forks and eats.
    Eating,
    /// Puts the first fork back, then the second, then rests.
    Releasing,
}

/// The point a diner has reached within its cycle: what it does next.
#[derive(Clone, Copy, Debug, PartialEq, Eq, Structural)]
pub enum Stage {
    /// About to try to claim the first fork.
    ClaimFirst,
    /// About to try to claim the second fork.
    ClaimSecond,
    /// About to say that it eats.
    AnnounceStart,
    /// About to spend the time that eating takes.
    Work,
    /// About to say that it has stopped eating.
    AnnounceStop,
    /// About to put the first fork back.
    ReleaseFirst,
    /// About to put the second fork back.
    ReleaseSecond,
    /// About to rest before becoming hungry again.
    Rest,
}

/// The two lines a diner says, one on each side of a meal.
#[derive(Clone, Copy, Debug, PartialEq, Eq, Structural)]
pub enum Notice {
    /// The meal begins.
    Eating,
    /// The meal is over.
    Stopped,
}

/// What a diner asks its driver to do next.
#[derive(Clone, Copy, Debug, PartialEq, Eq, Structural)]
pub enum Action {
    /// Try once to take the fork with this index; report whether it was free.
    Claim(usize),
    /// Print the line for this notice.
    Announce(Notice),
    /// Let this many milliseconds pass.
    Pause(u64),
    /// Put the fork with this index back on the table.
    Release(usize),
}

impl Phase {
    /// The phase that comes after this one in a diner's cycle.
    pub open spec fn following(self) -> Phase {
        match self {
            Phase::HungryFirst => Phase::HungrySecond,
            Phase::HungrySecond => Phase::Eating,
            Phase::Eating => Phase::Releasing,
            Phase::Releasing => Phase::HungryFirst,
        }
    }
}

impl Stage {
    /// The phase that a stage belongs to.
    pub open spec fn spec_phase(self) -> Phase {
        match self {
            Stage::ClaimFirst => Phase::HungryFirst,
            Stage::ClaimSecond => Phase::HungrySecond,
            Stage::AnnounceStart | Stage::Work | Stage::AnnounceStop => Phase::Eating,
            Stage::ReleaseFirst | Stage::ReleaseSecond | Stage::Rest => Phase::Releasing,
        }
    }

    /// Whether a diner at this stage has its first fork in hand.
    pub open spec fn holds_first(self) -> bool {
        self == Stage::ClaimSecond || self.spec_phase() == Phase::Eating || self
            == Stage::ReleaseFirst
    }

    /// Whether a diner at this stage has its second fork in hand.
    pub open spec fn holds_second(self) -> bool {
        self.spec_phase() == Phase::Eating || self == Stage::ReleaseFirst || self
            == Stage::ReleaseSecond
    }

    /// Whether a diner at this stage, sitting at `seat` of `seats`, has
    /// `fork` in hand.
    pub open spec fn spec_holds(self, seat: int, seats: int, fork: int) -> bool {
        ||| self.holds_first() && fork == spec_first_fork(seat, seats)
        ||| self.holds_second() && fork == spec_second_fork(seat, seats)
    }

    /// Whether readings of the flags of a diner's first and second fork fit
    /// what a diner at this stage has in hand: a fork in hand must not read
    /// as free, and of a fork that is not in hand either reading is sound.
    pub open spec fn spec_hands_sound(self, first_free: bool, second_free: bool) -> bool {
        &&& self.holds_first() ==> !first_free
        &&& self.holds_second() ==> !second_free
    }

    /// The stage of a diner that has let go of whatever it had in hand: at
    /// rest if it had anything, and where it was if it had nothing.
    pub open spec fn spec_abandoned(self) -> Stage {
        if self.holds_first() || self.holds_second() {
            Stage::Rest
        } else {
            self
        }
    }

    /// Whether the action of this stage is an attempt to claim a fork.
    pub open spec fn claims(self) -> bool {
        self == Stage::ClaimFirst || self == Stage::ClaimSecond
    }

    /// The turns that a diner past its claims still needs to finish its meal,
    /// put both forks back and come to rest; zero for a diner that rests or
    /// is hungry.
    pub open spec fn turns_to_rest(self) -> nat {
        match self {
            Stage::AnnounceStart => 5,
            Stage::Work => 4,
            Stage::AnnounceStop => 3,
            Stage::ReleaseFirst => 2,
            Stage::ReleaseSecond => 1,
            _ => 0,
        }
    }

    /// The stage that follows, once the action of this one has been
    /// performed. A claim that failed leaves the diner where it is, to try
    /// again; everything else moves on regardless of `claimed`.
    pub open spec fn spec_next(self, claimed: bool) -> Stage {
        match self {
            Stage::ClaimFirst => if claimed {
                Stage::ClaimSecond
            } else {
                Stage::ClaimFirst
            },
            Stage::ClaimSecond => if claimed {
                Stage::AnnounceStart
            } else {
                Stage::ClaimSecond
            },
            Stage::AnnounceStart => Stage::Work,
            Stage::Work => Stage::AnnounceStop,
            Stage::AnnounceStop => Stage::ReleaseFirst,
            Stage::ReleaseFirst => Stage::ReleaseSecond,
            Stage::ReleaseSecond => Stage::Rest,
            Stage::Rest => Stage::ClaimFirst,
        }
    }

    /// The action that a diner at `seat` of `seats` asks for at this stage.
    pub open spec fn spec_action(self, seat: usize, seats: usize) -> Action {
        match self {
            Stage::ClaimFirst => Action::Claim(
                spec_first_fork(seat as int, seats as int) as usize,
            ),
            Stage::ClaimSecond => Action::Claim(
                spec_second_fork(seat as int, seats as int) as usize,
            ),
            Stage::AnnounceStart => Action::Announce(Notice::Eating),
            Stage::Work => Action::Pause(EATING_MILLIS),
            Stage::AnnounceStop => Action::Announce(Notice::Stopped),
            Stage::ReleaseFirst => Action::Release(
                spec_first_fork(seat as int, seats as int) as usize,
            ),
            Stage::ReleaseSecond => Action::Release(
                spec_second_fork(seat as int, seats as int) as usize,
            ),
            Stage::Rest => Action::Pause(RESTING_MILLIS),
        }
    }

    /// The phase that this stage belongs to.
    #[verifier::when_used_as_spec(spec_phase)]
    pub fn phase(self) -> (phase: Phase)
        ensures
            phase == self.spec_phase(),
    {
        match self {
            Stage::ClaimFirst => Phase::HungryFirst,
            Stage::ClaimSecond => Phase::HungrySecond,
            Stage::AnnounceStart | Stage::Work | Stage::AnnounceStop => Phase::Eating,
            Stage::ReleaseFirst | Stage::ReleaseSecond | Stage::Rest => Phase::Releasing,
        }
    }

    /// The stage that follows this one, given whether a claim succeeded.
    #[verifier::when_used_as_spec(spec_next)]
    pub fn next(self, claimed: bool) -> (stage: Stage)
        ensures
            stage == self.spec_next(claimed),
    {
        match self {
            Stage::ClaimFirst => if claimed {
                Stage::ClaimSecond
            } else {
                Stage::ClaimFirst
            },
            Stage::ClaimSecond => if claimed {
                Stage::AnnounceStart
            } else {
                Stage::ClaimSecond
            },
            Stage::AnnounceStart => Stage::Work,
            Stage::Work => Stage::AnnounceStop,
            Stage::AnnounceStop => Stage::ReleaseFirst,
            Stage::ReleaseFirst => Stage::ReleaseSecond,
            Stage::ReleaseSecond => Stage::Rest,
            Stage::Rest => Stage::ClaimFirst,
        }
    }

    /// Whether a diner at this stage, sitting at `seat` of `seats`, has the
    /// fork with index `fork` in hand.
    pub fn holds(self, seat: usize, seats: usize, fork: usize) -> (held: bool)
        requires
            seat < seats,
        ensures
            held == self.spec_holds(seat as int, seats as int, fork as int),
    {
        match self {
            Stage::ClaimFirst | Stage::Rest => false,
            Stage::ClaimSecond => fork == first_fork(seat, seats),
            Stage::AnnounceStart | Stage::Work | Stage::AnnounceStop | Stage::ReleaseFirst => fork
                == first_fork(seat, seats) || fork == second_fork(seat, seats),
            Stage::ReleaseSecond => fork == second_fork(seat, seats),
        }
    }

    /// The action that a diner at `seat` of `seats` asks for at this stage.
    #[verifier::when_used_as_spec(spec_action)]
    pub fn action(self, seat: usize, seats: usize) -> (action: Action)
        requires
            seat < seats,
        ensures
            action == self.spec_action(seat, seats),
    {
        match self {
            Stage::ClaimFirst => Action::Claim(first_fork(seat, seats)),
            Stage::ClaimSecond => Action::Claim(second_fork(seat, seats)),
            Stage::AnnounceStart => Action::Announce(Notice::Eating),
            Stage::Work => Action::Pause(EATING_MILLIS),
            Stage::AnnounceStop => Action::Announce(Notice::Stopped),
            Stage::ReleaseFirst => Action::Release(first_fork(seat, seats)),
            Stage::ReleaseSecond => Action::Release(second_fork(seat, seats)),
            Stage::Rest => Action::Pause(RESTING_MILLIS),
        }
    }
}

/// A diner: a seat at a ring of a given size, and the stage it has reached.
pub struct Philosopher {
    seat: usize,
    seats: usize,
    stage: Stage,
}

impl Philosopher {
    /// The diner's seat.
    pub closed spec fn spec_seat(&self) -> usize {
        self.seat
    }

    /// The number of seats at the diner's table.
    pub closed spec fn spec_seats(&self) -> usize {
        self.seats
    }

    /// The stage the diner has reached.
    pub closed spec fn spec_stage(&self) -> Stage {
        self.stage
    }

    /// A diner sits at a seat of a valid ring.
    pub open spec fn wf(&self) -> bool {
        valid_ring(self.spec_seats() as int) && self.spec_seat() < self.spec_seats()
    }

    /// Whether the diner has the fork with index `fork` in hand.
    pub open spec fn spec_holds(&self, fork: usize) -> bool {
        self.spec_stage().spec_holds(
            self.spec_seat() as int,
            self.spec_seats() as int,
            fork as int,
        )
    }

    /// Seats a hungry diner with empty hands at `seat` of a ring of `seats`.
    pub fn new(seat: usize, seats: usize) -> (diner: Philosopher)
        requires
            valid_ring(seats as int),
            seat < seats,
        ensures
            diner.wf(),
            diner.spec_seat() == seat,
            diner.spec_seats() == seats,
            diner.spec_stage() == Stage::ClaimFirst,
    {
        Philosopher { seat, seats, stage: Stage::ClaimFirst }
    }

    /// The diner's seat.
    #[verifier::when_used_as_spec(spec_seat)]
    pub fn seat(&self) -> (seat: usize)
        ensures
            seat == self.spec_seat(),
    {
        self.seat
    }

    /// The number of seats at the diner's table.
    #[verifier::when_used_as_spec(spec_seats)]
    pub fn seats(&self) -> (seats: usize)
        ensures
            seats == self.spec_seats(),
    {
        self.seats
    }

    /// The stage the diner has reached.
    #[verifier::when_used_as_spec(spec_stage)]
    pub fn stage(&self) -> (stage: Stage)
        ensures
            stage == self.spec_stage(),
    {
        self.stage
    }

    /// The phase the diner is in.
    pub fn phase(&self) -> (phase: Phase)
        ensures
            phase == self.spec_stage().spec_phase(),
    {
        self.stage.phase()
    }

    /// The action the diner asks for next.
    pub fn action(&self) -> (action: Action)
        requires
            self.wf(),
        ensures
            action == self.spec_stage().spec_action(self.spec_seat(), self.spec_seats()),
    {
        self.stage.action(self.seat, self.seats)
    }

    /// Records that the action asked for has been performed, and moves the
    /// diner to its next stage. `claimed` says whether a claim succeeded; it
    /// is ignored where the action was no claim.
    pub fn advance(&mut self, claimed: bool)
        ensures
            final(self).spec_stage() == old(self).spec_stage().spec_next(claimed),
            final(self).spec_seat() == old(self).spec_seat(),
            final(self).spec_seats() == old(self).spec_seats(),
    {
        self.stage = self.stage.next(claimed);
    }

    /// The forks that the diner has in hand: its first fork if it has it, and
    /// its second fork if it has it.
    pub open spec fn spec_in_hand(&self) -> (Option<usize>, Option<usize>) {
        (
            if self.spec_stage().holds_first() {
                Some(spec_first_fork(self.spec_seat() as int, self.spec_seats() as int) as usize)
            } else {
                None
            },
            if self.spec_stage().holds_second() {
                Some(spec_second_fork(self.spec_seat() as int, self.spec_seats() as int) as usize)
            } else {
                None
            },
        )
    }

    /// The forks that the diner has in hand, in the order in which it puts
    /// them back: its first fork if it has it, and its second fork if it has
    /// it.
    #[verifier::when_used_as_spec(spec_in_hand)]
    pub fn in_hand(&self) -> (forks: (Option<usize>, Option<usize>))
        requires
            self.wf(),
        ensures
            forks == self.spec_in_hand(),
    {
        let first = first_fork(self.seat, self.seats);
        let second = second_fork(self.seat, self.seats);
        match self.stage {
            Stage::ClaimFirst | Stage::Rest => (None, None),
            Stage::ClaimSecond => (Some(first), None),
            Stage::AnnounceStart | Stage::Work | Stage::AnnounceStop | Stage::ReleaseFirst => (
                Some(first),
                Some(second),
            ),
            Stage::ReleaseSecond => (None, Some(second)),
        }
    }

    /// Records that the diner has let go of whatever it had in hand: a diner
    /// that had a fork comes to rest, and one that had none stays where it
    /// is.
    pub fn abandon(&mut self)
        ensures
            final(self).spec_stage() == old(self).spec_stage().spec_abandoned(),
            final(self).spec_seat() == old(self).spec_seat(),
            final(self).spec_seats() == old(self).spec_seats(),
    {
        match self.stage {
            Stage::ClaimFirst | Stage::Rest => {},
            _ => {
                self.stage = Stage::Rest;
            },
        }
    }

    /// Whether the diner has the fork with index `fork` in hand.
    #[verifier::when_used_as_spec(spec_holds)]
    pub fn holds(&self, fork: usize) -> (held: bool)
        requires
            self.wf(),
        ensures
            held == self.spec_holds(fork),
    {
        self.stage.holds(self.seat, self.seats, fork)
    }
}

} // verus!
