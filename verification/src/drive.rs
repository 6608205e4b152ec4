//! A diner at the shared forks: one turn of its protocol against the pool.
//!
//! The diner does its own claiming and releasing here. What it cannot do
//! itself, printing a line and letting time pass, it hands back to whoever
//! drives it, as a task.

use vstd::prelude::*;
use crate::diner::{Action, Notice, Philosopher, Stage};
use crate::pool::ForkPool;
use crate::ring::{first_fork, second_fork};

verus! {

/// What is left for the driver to do after a diner's turn.
#[derive(Clone, Copy, Debug, PartialEq, Eq, Structural)]
pub enum Task {
    /// Nothing: take the next turn.
    Nothing,
    /// Print the diner's line for this notice.
    Print(Notice),
    /// Let this many milliseconds pass.
    Sleep(u64),
    /// Stop this diner for good: a fork it had just claimed, or still had in
    /// hand, read as lying on the table, which the forks should never allow.
    /// The diner has put back what it had and has empty hands.
    Halt,
}

impl Philosopher {
    /// The task that a turn leaves when its action was no claim.
    pub open spec fn spec_task(action: Action) -> Task {
        match action {
            Action::Announce(notice) => Task::Print(notice),
            Action::Pause(millis) => Task::Sleep(millis),
            _ => Task::Nothing,
        }
    }

    /// Whether readings of the flags of the diner's first and second fork fit
    /// what the diner has in hand: a fork in hand must not read as free, and
    /// of a fork that is not in hand either reading is sound.
    pub open spec fn spec_hands_sound(&self, first_free: bool, second_free: bool) -> bool {
        self.spec_stage().spec_hands_sound(first_free, second_free)
    }

    /// Whether readings of the flags of the diner's first and second fork fit
    /// what the diner has in hand.
    #[verifier::when_used_as_spec(spec_hands_sound)]
    pub fn hands_sound(&self, first_free: bool, second_free: bool) -> (sound: bool)
        ensures
            sound == self.spec_hands_sound(first_free, second_free),
    {
        let stage = self.stage();
        let has_first = match stage {
            Stage::ClaimFirst | Stage::ReleaseSecond | Stage::Rest => false,
            _ => true,
        };
        let has_second = match stage {
            Stage::ClaimFirst | Stage::ClaimSecond | Stage::Rest => false,
            _ => true,
        };
        !(has_first && first_free) && !(has_second && second_free)
    }

    /// Reads the flags of the diner's two forks, and says whether the
    /// readings fit what the diner has in hand, as `hands_sound` judges them.
    /// A diner with empty hands always passes. What is read depends on the
    /// other threads, so no more is promised of the answer; while the forks
    /// work, it is `true`.
    pub fn audit(&self, pool: &ForkPool) -> (sound: bool)
        requires
            self.wf(),
            pool.spec_len() == self.spec_seats(),
        ensures
            !self.spec_stage().holds_first() && !self.spec_stage().holds_second() ==> sound,
    {
        let first_free = pool.is_free(first_fork(self.seat(), self.seats()));
        let second_free = pool.is_free(second_fork(self.seat(), self.seats()));
        self.hands_sound(first_free, second_free)
    }

    /// Takes in the answers of the pool to a claim: whether the claim
    /// succeeded, and what the flags of the diner's first and second fork
    /// read after it. The diner moves on if the claim succeeded and stays
    /// where it is if it failed. It is to halt exactly when the claim
    /// succeeded and the readings do not fit what it then has in hand; after a
    /// failed claim the readings count for nothing.
    pub fn settle(&mut self, claimed: bool, first_free: bool, second_free: bool) -> (task: Task)
        ensures
            final(self).spec_stage() == old(self).spec_stage().spec_next(claimed),
            final(self).spec_seat() == old(self).spec_seat(),
            final(self).spec_seats() == old(self).spec_seats(),
            task == Task::Halt <==> claimed && !final(self).spec_hands_sound(
                first_free,
                second_free,
            ),
            task == Task::Halt || task == Task::Nothing,
    {
        self.advance(claimed);
        if claimed && !self.hands_sound(first_free, second_free) {
            Task::Halt
        } else {
            Task::Nothing
        }
    }

    /// Puts back every fork the diner has in hand, its first before its
    /// second, and leaves the diner with empty hands: at rest if it had a
    /// fork, and where it was if it had none. No other fork is touched. This
    /// is the way out for a diner that stops at any point of its cycle.
    pub fn leave(&mut self, pool: &ForkPool)
        requires
            old(self).wf(),
            pool.spec_len() == old(self).spec_seats(),
        ensures
            final(self).wf(),
            final(self).spec_stage() == old(self).spec_stage().spec_abandoned(),
            final(self).spec_seat() == old(self).spec_seat(),
            final(self).spec_seats() == old(self).spec_seats(),
            !final(self).spec_stage().holds_first(),
            !final(self).spec_stage().holds_second(),
    {
        let (first, second) = self.in_hand();
        match first {
            Some(fork) => pool.release(fork),
            None => {},
        }
        match second {
            Some(fork) => pool.release(fork),
            None => {},
        }
        self.abandon();
    }

    /// Takes one turn at the pool: performs the action of the diner's stage
    /// and moves the diner on.
    ///
    /// A claim is tried once. Whether it succeeds depends on the other
    /// threads: if it fails the diner stays where it is, to poll again on its
    /// next turn; if it succeeds the diner moves on and reads the flags of
    /// its two forks. Should a fork in its hand read as free, the diner puts
    /// back what it has, comes to rest with empty hands and is told to halt.
    /// Every other action always moves the diner on, and announcing and
    /// pausing are handed back as tasks.
    pub fn turn(&mut self, pool: &ForkPool) -> (task: Task)
        requires
            old(self).wf(),
            pool.spec_len() == old(self).spec_seats(),
        ensures
            final(self).wf(),
            final(self).spec_seat() == old(self).spec_seat(),
            final(self).spec_seats() == old(self).spec_seats(),
            old(self).spec_stage().claims() ==> {
                ||| final(self).spec_stage() == old(self).spec_stage() && task == Task::Nothing
                ||| final(self).spec_stage() == old(self).spec_stage().spec_next(true) && task
                    == Task::Nothing
                ||| final(self).spec_stage() == Stage::Rest && task == Task::Halt
            },
            !old(self).spec_stage().claims() ==> {
                &&& final(self).spec_stage() == old(self).spec_stage().spec_next(true)
                &&& task == Self::spec_task(
                    old(self).spec_stage().spec_action(
                        old(self).spec_seat(),
                        old(self).spec_seats(),
                    ),
                )
            },
            task == Task::Halt ==> !final(self).spec_stage().holds_first(),
            task == Task::Halt ==> !final(self).spec_stage().holds_second(),
    {
        match self.action() {
            Action::Claim(fork) => {
                let claimed = pool.try_claim(fork);
                let first_free = claimed && pool.is_free(first_fork(self.seat(), self.seats()));
                let second_free = claimed && pool.is_free(second_fork(self.seat(), self.seats()));
                let task = self.settle(claimed, first_free, second_free);
                match task {
                    Task::Halt => self.leave(pool),
                    _ => {},
                }
                task
            },
            Action::Release(fork) => {
                pool.release(fork);
                self.advance(true);
                Task::Nothing
            },
            Action::Announce(notice) => {
                self.advance(true);
                Task::Print(notice)
            },
            Action::Pause(millis) => {
                self.advance(true);
                Task::Sleep(millis)
            },
        }
    }
}

} // verus!
