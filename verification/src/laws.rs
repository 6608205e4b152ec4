//! What holds of every table, whatever the order in which the diners take
//! their turns.

use vstd::prelude::*;
use crate::diner::{Phase, Stage};
use crate::model::TableState;
use crate::ring::{beside, valid_ring};

verus! {

/// A diner goes through its phases in their order, without a branch or a way
/// out. Only a claim can keep it where it is, and does so exactly when it
/// fails; a claim that succeeds takes it to the following phase, and from
/// any other stage it moves on whatever happens, staying in its phase or
/// entering the following one.
pub proof fn lemma_phases_in_order(stage: Stage, claimed: bool)
    ensures
        stage.claims() && !claimed ==> stage.spec_next(claimed) == stage,
        stage.claims() && claimed ==> stage.spec_next(claimed).spec_phase()
            == stage.spec_phase().following(),
        !stage.claims() ==> stage.spec_next(claimed) != stage && stage.spec_next(claimed)
            == stage.spec_next(!claimed),
        stage.spec_next(claimed).spec_phase() == stage.spec_phase() || stage.spec_next(
            claimed,
        ).spec_phase() == stage.spec_phase().following(),
{
}

/// A diner whose claims succeed is back where it began after eight turns,
/// with empty hands, having eaten in between.
pub proof fn lemma_cycle_closes()
    ensures
        Stage::ClaimFirst.spec_next(true).spec_next(true).spec_phase() == Phase::Eating,
        Stage::ClaimFirst.spec_next(true).spec_next(true).spec_next(true).spec_next(
            true,
        ).spec_next(true).spec_next(true).spec_next(true).spec_next(true) == Stage::ClaimFirst,
        !Stage::ClaimFirst.holds_first() && !Stage::ClaimFirst.holds_second(),
{
}

/// The initial table of a valid ring is consistent.
pub proof fn lemma_initial_consistent(seats: int)
    requires
        valid_ring(seats),
    ensures
        TableState::initial(seats).consistent(),
        TableState::initial(seats).seats() == seats,
{
}

/// A turn of any diner keeps a consistent table consistent, and changes
/// neither the number of seats nor the stage of any other diner.
pub proof fn lemma_step_consistent(state: TableState, seat: int)
    requires
        state.consistent(),
    ensures
        state.step(seat).consistent(),
        state.step(seat).seats() == state.seats(),
        forall|other: int|
            0 <= other < state.seats() && other != seat ==> state.step(seat).stages[other]
                == state.stages[other],
{
    let after = state.step(seat);
    assert forall|fork: int| 0 <= fork < after.seats() implies after.fork_accounted(fork) by {
        assert(state.fork_accounted(fork));
    }
}

/// Any schedule keeps a consistent table consistent.
pub proof fn lemma_run_consistent(state: TableState, schedule: Seq<int>)
    requires
        state.consistent(),
    ensures
        state.run(schedule).consistent(),
        state.run(schedule).seats() == state.seats(),
    decreases schedule.len(),
{
    if schedule.len() > 0 {
        lemma_run_consistent(state, schedule.drop_last());
        lemma_step_consistent(state.run(schedule.drop_last()), schedule.last());
    }
}

/// Running one schedule and then another is running the two on end.
pub proof fn lemma_run_concat(state: TableState, first: Seq<int>, second: Seq<int>)
    ensures
        state.run(first + second) == state.run(first).run(second),
    decreases second.len(),
{
    if second.len() > 0 {
        lemma_run_concat(state, first, second.drop_last());
        assert((first + second).drop_last() =~= first + second.drop_last());
    }
}

/// A schedule of one turn is one step.
pub proof fn lemma_run_single(state: TableState, seat: int)
    ensures
        state.run(seq![seat]) == state.step(seat),
{
    assert(seq![seat].drop_last() =~= Seq::<int>::empty());
    assert(state.run(Seq::<int>::empty()) == state);
}

/// Every state the table can be in is consistent.
pub proof fn lemma_reachable_consistent(state: TableState)
    requires
        state.reachable(),
    ensures
        state.consistent(),
{
    let (seats, schedule) = choose|seats: int, schedule: Seq<int>|
        valid_ring(seats) && #[trigger] TableState::initial(seats).run(schedule) == state;
    lemma_initial_consistent(seats);
    lemma_run_consistent(TableState::initial(seats), schedule);
}

/// A fork is in nobody's hand exactly when it lies on the table.
pub proof fn lemma_free_iff_unheld(state: TableState, fork: int)
    requires
        state.consistent(),
        0 <= fork < state.seats(),
    ensures
        state.forks[fork] <==> forall|seat: int| !state.holds(seat, fork),
{
    assert(state.fork_accounted(fork));
}

/// In a consistent table no fork is in two hands.
pub proof fn lemma_one_holder(state: TableState, one: int, other: int, fork: int)
    requires
        state.consistent(),
        state.holds(one, fork),
        state.holds(other, fork),
    ensures
        one == other,
        0 <= fork < state.seats(),
        !state.forks[fork],
{
    assert(state.fork_accounted(fork));
}

/// In a consistent table the flags of a diner's two forks always fit what
/// the diner has in hand, so a diner that reads them after a claim is never
/// told to halt.
pub proof fn lemma_hands_always_sound(state: TableState, seat: int)
    requires
        state.consistent(),
        0 <= seat < state.seats(),
    ensures
        state.stages[seat].spec_hands_sound(
            state.forks[state.first_of(seat)],
            state.forks[state.second_of(seat)],
        ),
{
    assert(state.fork_accounted(state.first_of(seat)));
    assert(state.fork_accounted(state.second_of(seat)));
}

/// Mutual exclusion: whatever the order in which the diners of a valid ring
/// have taken their turns, no fork is in the hands of two diners, and a fork
/// in a diner's hand does not lie on the table.
pub proof fn theorem_mutual_exclusion(
    seats: int,
    schedule: Seq<int>,
    one: int,
    other: int,
    fork: int,
)
    requires
        valid_ring(seats),
        TableState::initial(seats).run(schedule).holds(one, fork),
        TableState::initial(seats).run(schedule).holds(other, fork),
    ensures
        one == other,
        !TableState::initial(seats).run(schedule).forks[fork],
{
    lemma_initial_consistent(seats);
    lemma_run_consistent(TableState::initial(seats), schedule);
    lemma_one_holder(TableState::initial(seats).run(schedule), one, other, fork);
}

/// Two diners who share a fork are never in their meals at the same time:
/// between the line that begins a diner's meal and the line that ends it,
/// neither of its neighbours begins a meal of its own.
pub proof fn lemma_neighbours_do_not_eat_together(
    state: TableState,
    one: int,
    other: int,
    fork: int,
)
    requires
        state.consistent(),
        0 <= one < state.seats(),
        0 <= other < state.seats(),
        beside(one, fork, state.seats()),
        beside(other, fork, state.seats()),
        state.stages[one].spec_phase() == Phase::Eating,
        state.stages[other].spec_phase() == Phase::Eating,
    ensures
        one == other,
{
    lemma_one_holder(state, one, other, fork);
}

/// In a consistent table some diner can move. The seat returned is such a
/// diner's.
pub proof fn lemma_some_diner_can_move(state: TableState) -> (seat: int)
    requires
        state.consistent(),
    ensures
        0 <= seat < state.seats(),
        !state.blocked(seat),
{
    let last = state.seats() - 1;
    if !state.blocked(0) {
        0
    } else if !state.blocked(last) {
        last
    } else if !state.blocked(1) {
        1
    } else {
        assert(state.fork_accounted(0));
        assert(state.fork_accounted(1));
        assert(state.fork_accounted(last));
        last - 1
    }
}

/// In a consistent table the diners are never all waiting for their second
/// fork with their first in hand.
pub proof fn lemma_not_all_await_second(state: TableState) -> (seat: int)
    requires
        state.consistent(),
    ensures
        0 <= seat < state.seats(),
        state.stages[seat] != Stage::ClaimSecond,
{
    if state.stages[0] != Stage::ClaimSecond {
        0
    } else if state.stages[1] != Stage::ClaimSecond {
        1
    } else if state.seats() == 2 {
        assert(state.fork_accounted(0));
        0
    } else {
        assert(state.fork_accounted(2));
        2
    }
}

/// No deadlock: whatever the order in which the diners of a valid ring have
/// taken their turns, some diner can move, and the diners are not all
/// waiting for their second fork with their first in hand.
pub proof fn theorem_no_deadlock(seats: int, schedule: Seq<int>)
    requires
        valid_ring(seats),
    ensures
        !TableState::initial(seats).run(schedule).deadlocked(),
        exists|seat: int|
            0 <= seat < seats && !TableState::initial(seats).run(schedule).blocked(seat),
        exists|seat: int|
            0 <= seat < seats && #[trigger] TableState::initial(seats).run(schedule).stages[seat]
                != Stage::ClaimSecond,
{
    let state = TableState::initial(seats).run(schedule);
    lemma_initial_consistent(seats);
    lemma_run_consistent(TableState::initial(seats), schedule);
    lemma_some_diner_can_move(state);
    lemma_not_all_await_second(state);
}

/// Release restores availability: when a diner puts a fork back, the fork
/// lies on the table straight away, in nobody's hand, and a diner that polls
/// it on the very next turn gets it.
pub proof fn lemma_release_restores_availability(state: TableState, seat: int, next: int)
    requires
        state.consistent(),
        0 <= seat < state.seats(),
        state.stages[seat] == Stage::ReleaseFirst || state.stages[seat] == Stage::ReleaseSecond,
    ensures
        state.step(seat).forks[state.returned(seat)],
        forall|other: int| !state.step(seat).holds(other, state.returned(seat)),
        0 <= next < state.seats() && state.stages[next].claims() && state.step(seat).polled(next)
            == state.returned(seat) ==> !state.step(seat).blocked(next) && state.step(
            seat,
        ).step(next).holds(next, state.returned(seat)),
{
    let fork = state.returned(seat);
    let after = state.step(seat);
    lemma_step_consistent(state, seat);
    lemma_free_iff_unheld(after, fork);
}

} // verus!
