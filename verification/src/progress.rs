//! No diner is ever shut out: from every state the table can be in, and for
//! every diner, there is a short continuation that brings the diner to its
//! meal.
//!
//! The continuation is built by letting whoever stands in the diner's way
//! finish its own meal first. The order in which forks are picked up bounds how
//! far that has to go: a fork that is second for both diners who share it is
//! only ever in the hand of a diner who is past waiting.

use vstd::prelude::*;
use crate::diner::{Phase, Stage};
use crate::laws::{
    lemma_initial_consistent,
    lemma_run_concat,
    lemma_run_consistent,
    lemma_run_single,
    lemma_step_consistent,
};
use crate::model::TableState;
use crate::ring::{beside, spec_other_diner, valid_ring};

verus! {

/// The most turns it takes to bring any diner to its meal.
pub open spec fn turns_to_eat() -> nat {
    33
}

/// Whether every turn of `schedule` goes to a seat of a ring of `seats`.
pub open spec fn seated(schedule: Seq<int>, seats: int) -> bool {
    forall|turn: int| 0 <= turn < schedule.len() ==> 0 <= #[trigger] schedule[turn] < seats
}

/// Whether the diners who are about to reach for their first fork in `before`
/// are still so in `after`.
pub open spec fn hungry_stay(before: TableState, after: TableState) -> bool {
    forall|seat: int|
        0 <= seat < before.seats() && before.stages[seat] == Stage::ClaimFirst
            ==> #[trigger] after.stages[seat] == Stage::ClaimFirst
}

/// Whether the diners who are not beside `fork` are in `after` where they
/// were in `before`.
pub open spec fn away_stay(before: TableState, after: TableState, fork: int) -> bool {
    forall|seat: int|
        0 <= seat < before.seats() && !beside(seat, fork, before.seats())
            ==> #[trigger] after.stages[seat] == before.stages[seat]
}

/// A diner that is past its claims comes to rest by its own turns alone,
/// whatever the others hold, and nobody else moves meanwhile.
pub proof fn lemma_finish_meal(state: TableState, seat: int) -> (schedule: Seq<int>)
    requires
        state.consistent(),
        0 <= seat < state.seats(),
        !state.stages[seat].claims(),
    ensures
        schedule.len() == state.stages[seat].turns_to_rest(),
        seated(schedule, state.seats()),
        state.run(schedule).consistent(),
        state.run(schedule).seats() == state.seats(),
        state.run(schedule).stages[seat] == Stage::Rest,
        forall|other: int|
            0 <= other < state.seats() && other != seat ==> state.run(schedule).stages[other]
                == state.stages[other],
    decreases state.stages[seat].turns_to_rest(),
{
    if state.stages[seat] == Stage::Rest {
        Seq::empty()
    } else {
        lemma_step_consistent(state, seat);
        let rest = lemma_finish_meal(state.step(seat), seat);
        lemma_run_single(state, seat);
        lemma_run_concat(state, seq![seat], rest);
        seq![seat] + rest
    }
}

/// A diner that waits for a second fork with an odd index gets it after the
/// other diner at that fork, if it has the fork, has finished its meal: such
/// a fork is second for both.
proof fn lemma_way_to_plain_second(state: TableState, seat: int) -> (schedule: Seq<int>)
    requires
        state.consistent(),
        0 <= seat < state.seats(),
        state.stages[seat] == Stage::ClaimSecond,
        state.second_of(seat) % 2 == 1,
    ensures
        schedule.len() <= 6,
        seated(schedule, state.seats()),
        state.run(schedule).consistent(),
        state.run(schedule).seats() == state.seats(),
        state.run(schedule).stages[seat] == Stage::AnnounceStart,
        hungry_stay(state, state.run(schedule)),
        away_stay(state, state.run(schedule), state.second_of(seat)),
{
    let fork = state.second_of(seat);
    assert(state.fork_accounted(fork));
    lemma_step_consistent(state, seat);
    lemma_run_single(state, seat);
    if state.forks[fork] {
        seq![seat]
    } else {
        let other = spec_other_diner(fork, seat, state.seats());
        let wait = lemma_finish_meal(state, other);
        let cleared = state.run(wait);
        assert(cleared.fork_accounted(fork));
        lemma_step_consistent(cleared, seat);
        lemma_run_single(cleared, seat);
        lemma_run_concat(state, wait, seq![seat]);
        wait + seq![seat]
    }
}

/// A diner that waits for its second fork gets it after those who stand in
/// its way have finished their meals.
pub proof fn lemma_way_to_second(state: TableState, seat: int) -> (schedule: Seq<int>)
    requires
        state.consistent(),
        0 <= seat < state.seats(),
        state.stages[seat] == Stage::ClaimSecond,
    ensures
        schedule.len() <= 12,
        seated(schedule, state.seats()),
        state.run(schedule).consistent(),
        state.run(schedule).seats() == state.seats(),
        state.run(schedule).stages[seat] == Stage::AnnounceStart,
        hungry_stay(state, state.run(schedule)),
{
    let fork = state.second_of(seat);
    if fork % 2 == 1 {
        lemma_way_to_plain_second(state, seat)
    } else {
        // Only the last diner of an odd ring has an even second fork: fork 0,
        // which is the first fork of the diner at seat 0.
        assert(state.fork_accounted(0));
        lemma_step_consistent(state, seat);
        lemma_run_single(state, seat);
        if state.forks[0] {
            seq![seat]
        } else {
            let feed = if state.stages[0] == Stage::ClaimSecond {
                lemma_way_to_plain_second(state, 0)
            } else {
                Seq::empty()
            };
            let fed = state.run(feed);
            let wait = lemma_finish_meal(fed, 0);
            let cleared = fed.run(wait);
            assert(cleared.fork_accounted(0));
            lemma_step_consistent(cleared, seat);
            lemma_run_single(cleared, seat);
            lemma_run_concat(state, feed, wait);
            lemma_run_concat(state, feed + wait, seq![seat]);
            let done = cleared.step(seat);
            assert forall|hungry: int|
                0 <= hungry < state.seats() && state.stages[hungry]
                    == Stage::ClaimFirst implies #[trigger] done.stages[hungry]
                == Stage::ClaimFirst by {
                assert(cleared.stages[hungry] == fed.stages[hungry]);
            }
            feed + wait + seq![seat]
        }
    }
}

/// A diner that waits for its first fork gets it after the other diner at
/// that fork, if it has the fork, has had its meal.
pub proof fn lemma_way_to_first(state: TableState, seat: int) -> (schedule: Seq<int>)
    requires
        state.consistent(),
        0 <= seat < state.seats(),
        state.stages[seat] == Stage::ClaimFirst,
    ensures
        schedule.len() <= 18,
        seated(schedule, state.seats()),
        state.run(schedule).consistent(),
        state.run(schedule).seats() == state.seats(),
        state.run(schedule).stages[seat] == Stage::ClaimSecond,
{
    let fork = state.first_of(seat);
    assert(state.fork_accounted(fork));
    lemma_step_consistent(state, seat);
    lemma_run_single(state, seat);
    if state.forks[fork] {
        seq![seat]
    } else {
        let other = spec_other_diner(fork, seat, state.seats());
        let feed = if state.stages[other] == Stage::ClaimSecond {
            lemma_way_to_second(state, other)
        } else {
            Seq::empty()
        };
        let fed = state.run(feed);
        assert(fed.stages[seat] == Stage::ClaimFirst);
        let wait = lemma_finish_meal(fed, other);
        let cleared = fed.run(wait);
        assert(cleared.fork_accounted(fork));
        lemma_step_consistent(cleared, seat);
        lemma_run_single(cleared, seat);
        lemma_run_concat(state, feed, wait);
        lemma_run_concat(state, feed + wait, seq![seat]);
        feed + wait + seq![seat]
    }
}

/// From a consistent table every diner can be brought to its meal: the
/// schedule returned does so, in no more than `turns_to_eat()` turns.
pub proof fn lemma_way_to_meal(state: TableState, seat: int) -> (schedule: Seq<int>)
    requires
        state.consistent(),
        0 <= seat < state.seats(),
    ensures
        schedule.len() <= turns_to_eat(),
        seated(schedule, state.seats()),
        state.run(schedule).stages[seat].spec_phase() == Phase::Eating,
{
    if state.stages[seat].spec_phase() == Phase::Eating {
        Seq::empty()
    } else {
        let back = if state.stages[seat].spec_phase() == Phase::Releasing {
            let rest = lemma_finish_meal(state, seat);
            lemma_step_consistent(state.run(rest), seat);
            lemma_run_single(state.run(rest), seat);
            lemma_run_concat(state, rest, seq![seat]);
            rest + seq![seat]
        } else {
            Seq::empty()
        };
        let hungry = state.run(back);
        let first = if hungry.stages[seat] == Stage::ClaimFirst {
            lemma_way_to_first(hungry, seat)
        } else {
            Seq::empty()
        };
        let waiting = hungry.run(first);
        let second = lemma_way_to_second(waiting, seat);
        lemma_run_concat(state, back, first);
        lemma_run_concat(state, back + first, second);
        back + first + second
    }
}

/// Progress: whatever the order in which the diners of a valid ring have taken
/// their turns so far, every diner can still come to its meal, within
/// `turns_to_eat()` further turns, provided that the turns go to those who
/// stand in its way until they have put their forks back, and then to the
/// diner itself.
pub proof fn theorem_every_diner_can_eat(seats: int, past: Seq<int>, seat: int)
    requires
        valid_ring(seats),
        0 <= seat < seats,
    ensures
        exists|coming: Seq<int>|
            coming.len() <= turns_to_eat() && seated(coming, seats) && #[trigger] TableState::initial(
                seats,
            ).run(past + coming).stages[seat].spec_phase() == Phase::Eating,
{
    let start = TableState::initial(seats);
    lemma_initial_consistent(seats);
    lemma_run_consistent(start, past);
    let coming = lemma_way_to_meal(start.run(past), seat);
    lemma_run_concat(start, past, coming);
}

} // verus!
