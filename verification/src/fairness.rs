//! Turns without end, in any order, and the fairness that feeds everyone.
//!
//! An endless order of turns is fair when nobody is passed over: whoever can
//! move at some moment gets, at that moment or later, a turn at which it can
//! move. For a diner past its claims that means simply another turn. For a
//! diner that polls a fork it means a turn while the fork lies on the table.
//! Under such an order every diner comes to its meal again and again.
//!
//! Rounds in which every diner has exactly one turn are such an order,
//! whatever the order within each round. An order that gives a diner's
//! neighbour several turns between any two of its own need not be.

use vstd::prelude::*;
use crate::diner::{Phase, Stage};
use crate::laws::{
    lemma_initial_consistent,
    lemma_one_holder,
    lemma_run_concat,
    lemma_run_consistent,
};
use crate::model::TableState;
use crate::ring::valid_ring;
use crate::rounds::{
    after,
    fair,
    has_turn,
    lemma_after_unfold,
    lemma_round_moves,
    lemma_rounds_to_first,
    lemma_rounds_to_second,
    lemma_settled,
    lemma_untouched,
    one_turn_each,
    rival,
};

verus! {

/// The first `count` turns of an endless order of turns.
pub open spec fn turns_before(order: spec_fn(nat) -> int, count: nat) -> Seq<int> {
    Seq::new(count, |turn: int| order(turn as nat))
}

/// The table at a time: after the first `time` turns of `order`, begun at
/// `start`.
pub open spec fn at(start: TableState, order: spec_fn(nat) -> int, time: nat) -> TableState {
    start.run(turns_before(order, time))
}

/// Whether the diner at `seat` has, at `time` or later, a turn at which it
/// can move.
pub open spec fn served(
    start: TableState,
    order: spec_fn(nat) -> int,
    time: nat,
    seat: int,
) -> bool {
    exists|later: nat|
        later >= time && order(later) == seat && !(#[trigger] at(start, order, later)).blocked(
            seat,
        )
}

/// Whether nobody is passed over: whoever can move at some time has, at that
/// time or later, a turn at which it can move.
pub open spec fn nobody_passed_over(start: TableState, order: spec_fn(nat) -> int) -> bool {
    forall|time: nat, seat: int|
        0 <= seat < start.seats() && !at(start, order, time).blocked(seat) ==> #[trigger] served(
            start,
            order,
            time,
            seat,
        )
}

/// Whether the diner at `seat` is at `stage` at every time from `from` up to,
/// and without, `until`.
pub open spec fn stays(
    start: TableState,
    order: spec_fn(nat) -> int,
    seat: int,
    stage: Stage,
    from: nat,
    until: nat,
) -> bool {
    forall|time: nat|
        from <= time < until ==> (#[trigger] at(start, order, time)).stages[seat] == stage
}

/// Whether the diner at `seat` has `fork` in hand at every time from `from`
/// up to, and without, `until`.
pub open spec fn keeps(
    start: TableState,
    order: spec_fn(nat) -> int,
    seat: int,
    fork: int,
    from: nat,
    until: nat,
) -> bool {
    forall|time: nat| from <= time < until ==> (#[trigger] at(start, order, time)).holds(seat, fork)
}

/// Time goes by one turn at a time, and the table stays consistent.
pub proof fn lemma_time_passes(start: TableState, order: spec_fn(nat) -> int, time: nat)
    requires
        start.consistent(),
    ensures
        at(start, order, time).consistent(),
        at(start, order, time).seats() == start.seats(),
        at(start, order, time + 1) == at(start, order, time).step(order(time)),
{
    lemma_run_consistent(start, turns_before(order, time));
    assert(turns_before(order, time + 1).drop_last() =~= turns_before(order, time));
}

/// A diner that has a turn at `later` at which it can move makes its next
/// move at the time returned, and stays where it is until then.
proof fn lemma_first_move(
    start: TableState,
    order: spec_fn(nat) -> int,
    time: nat,
    later: nat,
    seat: int,
) -> (moved: nat)
    requires
        start.consistent(),
        0 <= seat < start.seats(),
        time <= later,
        order(later) == seat,
        !at(start, order, later).blocked(seat),
    ensures
        time <= moved <= later,
        stays(start, order, seat, at(start, order, time).stages[seat], time, moved + 1),
        at(start, order, moved + 1).stages[seat] == at(start, order, time).stages[seat].spec_next(
            true,
        ),
    decreases later - time,
{
    lemma_time_passes(start, order, time);
    if order(time) == seat && !at(start, order, time).blocked(seat) {
        time
    } else {
        lemma_first_move(start, order, time + 1, later, seat)
    }
}

/// A diner that can move makes its next move at the time returned, and stays
/// where it is until then.
pub proof fn lemma_next_move(
    start: TableState,
    order: spec_fn(nat) -> int,
    time: nat,
    seat: int,
) -> (moved: nat)
    requires
        start.consistent(),
        nobody_passed_over(start, order),
        0 <= seat < start.seats(),
        !at(start, order, time).blocked(seat),
    ensures
        time <= moved,
        stays(start, order, seat, at(start, order, time).stages[seat], time, moved + 1),
        at(start, order, moved + 1).stages[seat] == at(start, order, time).stages[seat].spec_next(
            true,
        ),
{
    assert(served(start, order, time, seat));
    let later = choose|later: nat|
        later >= time && order(later) == seat && !(#[trigger] at(start, order, later)).blocked(
            seat,
        );
    lemma_first_move(start, order, time, later, seat)
}

/// A diner that is past its claims with a fork in hand puts the fork back:
/// at the time returned it no longer has the fork, it has had it at every
/// time before, and it is still past its claims.
pub proof fn lemma_lets_go(
    start: TableState,
    order: spec_fn(nat) -> int,
    time: nat,
    seat: int,
    fork: int,
) -> (freed: nat)
    requires
        start.consistent(),
        nobody_passed_over(start, order),
        0 <= seat < start.seats(),
        !at(start, order, time).stages[seat].claims(),
        at(start, order, time).holds(seat, fork),
    ensures
        time < freed,
        keeps(start, order, seat, fork, time, freed),
        !at(start, order, freed).holds(seat, fork),
        !at(start, order, freed).stages[seat].claims(),
    decreases at(start, order, time).stages[seat].turns_to_rest(),
{
    lemma_time_passes(start, order, time);
    let moved = lemma_next_move(start, order, time, seat);
    lemma_time_passes(start, order, moved + 1);
    if at(start, order, moved + 1).holds(seat, fork) {
        let freed = lemma_lets_go(start, order, moved + 1, seat, fork);
        assert forall|now: nat| time <= now < freed implies (#[trigger] at(
            start,
            order,
            now,
        )).holds(seat, fork) by {
            lemma_time_passes(start, order, now);
        }
        freed
    } else {
        assert forall|now: nat| time <= now < moved + 1 implies (#[trigger] at(
            start,
            order,
            now,
        )).holds(seat, fork) by {
            lemma_time_passes(start, order, now);
        }
        moved + 1
    }
}

/// A diner at a claim stays where it is for as long as its rival has the
/// fork it polls.
pub proof fn lemma_waits_for_fork(
    start: TableState,
    order: spec_fn(nat) -> int,
    time: nat,
    until: nat,
    seat: int,
)
    requires
        start.consistent(),
        0 <= seat < start.seats(),
        time <= until,
        at(start, order, time).stages[seat].claims(),
        keeps(
            start,
            order,
            rival(at(start, order, time), seat),
            at(start, order, time).polled(seat),
            time,
            until,
        ),
    ensures
        stays(start, order, seat, at(start, order, time).stages[seat], time, until + 1),
    decreases until - time,
{
    lemma_time_passes(start, order, time);
    if time < until {
        let now = at(start, order, time);
        lemma_one_holder(now, rival(now, seat), rival(now, seat), now.polled(seat));
        lemma_waits_for_fork(start, order, time + 1, until, seat);
    }
}

/// A diner at a claim gets the fork it polls, unless its rival has that fork
/// as its first while waiting for its second: if the fork is in the rival's
/// hand, the rival is past its claims and puts it back. At the time returned
/// the diner has moved on, and it has stayed where it was at every time
/// before.
pub proof fn lemma_fork_comes(
    start: TableState,
    order: spec_fn(nat) -> int,
    time: nat,
    seat: int,
) -> (got: nat)
    requires
        start.consistent(),
        nobody_passed_over(start, order),
        0 <= seat < start.seats(),
        at(start, order, time).stages[seat].claims(),
        !(at(start, order, time).stages[rival(at(start, order, time), seat)].claims() && at(
            start,
            order,
            time,
        ).holds(rival(at(start, order, time), seat), at(start, order, time).polled(seat))),
    ensures
        time < got,
        stays(start, order, seat, at(start, order, time).stages[seat], time, got),
        at(start, order, got).stages[seat] == at(start, order, time).stages[seat].spec_next(true),
{
    let now = at(start, order, time);
    let fork = now.polled(seat);
    let other = rival(now, seat);
    lemma_time_passes(start, order, time);
    assert(now.fork_accounted(fork));
    if now.blocked(seat) {
        assert(now.holds(other, fork));
        let freed = lemma_lets_go(start, order, time, other, fork);
        lemma_waits_for_fork(start, order, time, freed, seat);
        lemma_time_passes(start, order, freed);
        assert(at(start, order, freed).fork_accounted(fork));
        let moved = lemma_next_move(start, order, freed, seat);
        moved + 1
    } else {
        let moved = lemma_next_move(start, order, time, seat);
        moved + 1
    }
}

/// A diner at a claim gets the fork it polls. Where its rival has that fork
/// as its first while waiting for its second, the rival's own second fork
/// comes first, by `depth` at most two such steps: the order in which the
/// forks are picked up lets the waiting go no further.
pub proof fn lemma_claim_succeeds(
    start: TableState,
    order: spec_fn(nat) -> int,
    time: nat,
    seat: int,
    depth: nat,
) -> (got: nat)
    requires
        start.consistent(),
        nobody_passed_over(start, order),
        0 <= seat < start.seats(),
        at(start, order, time).stages[seat].claims(),
        depth >= waiting_depth(at(start, order, time), seat),
    ensures
        time < got,
        stays(start, order, seat, at(start, order, time).stages[seat], time, got),
        at(start, order, got).stages[seat] == at(start, order, time).stages[seat].spec_next(true),
    decreases depth,
{
    let now = at(start, order, time);
    let fork = now.polled(seat);
    let other = rival(now, seat);
    lemma_time_passes(start, order, time);
    if now.stages[other].claims() && now.holds(other, fork) {
        let fed = lemma_claim_succeeds(start, order, time, other, (depth - 1) as nat);
        assert forall|then: nat| time <= then < fed implies (#[trigger] at(
            start,
            order,
            then,
        )).holds(other, fork) by {
            lemma_time_passes(start, order, then);
        }
        lemma_waits_for_fork(start, order, time, fed, seat);
        lemma_time_passes(start, order, fed);
        let got = lemma_fork_comes(start, order, fed, seat);
        got
    } else {
        lemma_fork_comes(start, order, time, seat)
    }
}

/// How many diners may have to get a fork before the diner at `seat` gets
/// the one it polls: none where the fork is second for its rival, one more
/// than for the rival where it is the rival's first.
pub open spec fn waiting_depth(state: TableState, seat: int) -> nat {
    if state.stages[seat] == Stage::ClaimFirst {
        if seat == 0 && state.seats() % 2 == 1 {
            0
        } else {
            2
        }
    } else if state.second_of(seat) % 2 == 1 {
        0
    } else {
        1
    }
}

/// A diner that is past its meal is hungry again at the time returned.
pub proof fn lemma_hungry_again(
    start: TableState,
    order: spec_fn(nat) -> int,
    time: nat,
    seat: int,
) -> (hungry: nat)
    requires
        start.consistent(),
        nobody_passed_over(start, order),
        0 <= seat < start.seats(),
        at(start, order, time).stages[seat].spec_phase() == Phase::Releasing,
    ensures
        time < hungry,
        at(start, order, hungry).stages[seat] == Stage::ClaimFirst,
    decreases at(start, order, time).stages[seat].turns_to_rest(),
{
    lemma_time_passes(start, order, time);
    let moved = lemma_next_move(start, order, time, seat);
    if at(start, order, time).stages[seat] == Stage::Rest {
        moved + 1
    } else {
        lemma_hungry_again(start, order, moved + 1, seat)
    }
}

/// Under an order of turns that passes nobody over, every diner at a
/// consistent table is in its meal at the time returned, which is `time` or
/// later.
pub proof fn lemma_meal_comes(
    start: TableState,
    order: spec_fn(nat) -> int,
    time: nat,
    seat: int,
) -> (meal: nat)
    requires
        start.consistent(),
        nobody_passed_over(start, order),
        0 <= seat < start.seats(),
    ensures
        time <= meal,
        at(start, order, meal).stages[seat].spec_phase() == Phase::Eating,
{
    let stage = at(start, order, time).stages[seat];
    if stage.spec_phase() == Phase::Eating {
        time
    } else {
        let hungry = if stage.spec_phase() == Phase::Releasing {
            lemma_hungry_again(start, order, time, seat)
        } else {
            time
        };
        lemma_time_passes(start, order, hungry);
        let waiting = if at(start, order, hungry).stages[seat] == Stage::ClaimFirst {
            lemma_claim_succeeds(start, order, hungry, seat, 2)
        } else {
            hungry
        };
        lemma_time_passes(start, order, waiting);
        lemma_claim_succeeds(start, order, waiting, seat, 1)
    }
}

/// Progress: when the diners of a valid ring take their turns without end, in
/// an order that passes nobody over, every diner comes to its meal again and
/// again: after every point in time there is a later one at which it eats.
pub proof fn theorem_fair_turns_feed_everyone(
    seats: int,
    order: spec_fn(nat) -> int,
    time: nat,
    seat: int,
)
    requires
        valid_ring(seats),
        0 <= seat < seats,
        nobody_passed_over(TableState::initial(seats), order),
    ensures
        exists|meal: nat|
            meal >= time && (#[trigger] at(
                TableState::initial(seats),
                order,
                meal,
            )).stages[seat].spec_phase() == Phase::Eating,
{
    lemma_initial_consistent(seats);
    let meal = lemma_meal_comes(TableState::initial(seats), order, time, seat);
}

/// The turn at `time` when the rounds of `plan` follow one another, counted
/// from the beginning of round `round`.
pub open spec fn turn_of(plan: spec_fn(nat) -> Seq<int>, seats: int, round: nat, time: nat) -> int
    decreases time,
{
    if seats <= 0 || time < seats {
        plan(round)[time as int]
    } else {
        turn_of(plan, seats, round + 1, (time - seats) as nat)
    }
}

/// The endless order of turns in which the rounds of `plan` follow one
/// another, beginning with round `round`.
pub open spec fn rounds_on_end(
    plan: spec_fn(nat) -> Seq<int>,
    seats: int,
    round: nat,
) -> spec_fn(nat) -> int {
    |time: nat| turn_of(plan, seats, round, time)
}

/// Part of the way through the first round, the table is where the turns of
/// that round so far have brought it.
proof fn lemma_within_round(
    state: TableState,
    plan: spec_fn(nat) -> Seq<int>,
    round: nat,
    time: nat,
)
    requires
        fair(plan, state.seats()),
        time <= state.seats(),
    ensures
        at(state, rounds_on_end(plan, state.seats(), round), time) == state.run(
            plan(round).take(time as int),
        ),
        time < state.seats() ==> rounds_on_end(plan, state.seats(), round)(time) == plan(
            round,
        )[time as int],
{
    assert(one_turn_each(plan(round), state.seats()));
    assert(turns_before(rounds_on_end(plan, state.seats(), round), time) =~= plan(round).take(
        time as int,
    ));
}

/// After the first round, time goes on as in the rounds that follow.
proof fn lemma_next_round(
    state: TableState,
    plan: spec_fn(nat) -> Seq<int>,
    round: nat,
    time: nat,
)
    requires
        state.consistent(),
        fair(plan, state.seats()),
    ensures
        at(state, rounds_on_end(plan, state.seats(), round), (time + state.seats()) as nat) == at(
            state.run(plan(round)),
            rounds_on_end(plan, state.seats(), round + 1),
            time,
        ),
        rounds_on_end(plan, state.seats(), round)((time + state.seats()) as nat) == rounds_on_end(
            plan,
            state.seats(),
            round + 1,
        )(time),
{
    let seats = state.seats();
    assert(one_turn_each(plan(round), seats));
    let whole = turns_before(rounds_on_end(plan, seats, round), (time + seats) as nat);
    let rest = turns_before(rounds_on_end(plan, seats, round + 1), time);
    assert forall|turn: int| 0 <= turn < whole.len() implies whole[turn] == (plan(round)
        + rest)[turn] by {
        if turn >= seats {
            assert(turn_of(plan, seats, round, turn as nat) == turn_of(
                plan,
                seats,
                round + 1,
                (turn - seats) as nat,
            ));
        }
    }
    assert(whole =~= plan(round) + rest);
    lemma_run_concat(state, plan(round), rest);
}

/// Who is served in the rounds that follow the first is served from the
/// beginning.
proof fn lemma_served_next_round(
    state: TableState,
    plan: spec_fn(nat) -> Seq<int>,
    round: nat,
    seat: int,
)
    requires
        state.consistent(),
        fair(plan, state.seats()),
        served(state.run(plan(round)), rounds_on_end(plan, state.seats(), round + 1), 0, seat),
    ensures
        served(state, rounds_on_end(plan, state.seats(), round), 0, seat),
{
    let seats = state.seats();
    let next = state.run(plan(round));
    lemma_run_consistent(state, plan(round));
    let later = choose|later: nat|
        later >= 0 && rounds_on_end(plan, seats, round + 1)(later) == seat && !(#[trigger] at(
            next,
            rounds_on_end(plan, seats, round + 1),
            later,
        )).blocked(seat);
    lemma_next_round(state, plan, round, later);
    let found = (later + seats) as nat;
    assert(rounds_on_end(plan, seats, round)(found) == seat && !at(
        state,
        rounds_on_end(plan, seats, round),
        found,
    ).blocked(seat));
}

/// A diner that is somewhere else after a round than before it has been
/// served in that round.
proof fn lemma_served_in_round(
    state: TableState,
    plan: spec_fn(nat) -> Seq<int>,
    round: nat,
    seat: int,
)
    requires
        state.consistent(),
        fair(plan, state.seats()),
        0 <= seat < state.seats(),
        state.run(plan(round)).stages[seat] != state.stages[seat],
    ensures
        served(state, rounds_on_end(plan, state.seats(), round), 0, seat),
{
    let order = plan(round);
    assert(one_turn_each(order, state.seats()));
    assert(has_turn(order, seat));
    let turn = choose|turn: int| 0 <= turn < order.len() && order[turn] == seat;
    lemma_untouched(state, order, turn, turn);
    lemma_settled(state, order, turn, order.len() as int);
    assert(order.take(order.len() as int) =~= order);
    lemma_within_round(state, plan, round, turn as nat);
    assert(!at(state, rounds_on_end(plan, state.seats(), round), turn as nat).blocked(seat));
}

/// A diner that is somewhere else after some rounds than before them has been
/// served in one of them.
proof fn lemma_served_in_rounds(
    state: TableState,
    plan: spec_fn(nat) -> Seq<int>,
    round: nat,
    count: nat,
    seat: int,
)
    requires
        state.consistent(),
        fair(plan, state.seats()),
        0 <= seat < state.seats(),
        after(state, plan, round, count).stages[seat] != state.stages[seat],
    ensures
        served(state, rounds_on_end(plan, state.seats(), round), 0, seat),
    decreases count,
{
    let next = state.run(plan(round));
    lemma_run_consistent(state, plan(round));
    if next.stages[seat] != state.stages[seat] {
        lemma_served_in_round(state, plan, round, seat);
    } else {
        lemma_after_unfold(state, plan, round, count);
        lemma_served_in_rounds(next, plan, round + 1, (count - 1) as nat, seat);
        lemma_served_next_round(state, plan, round, seat);
    }
}

/// When fair rounds follow one another, whoever is at the table at the
/// beginning of a round is served in that round or a later one.
proof fn lemma_served_from_round(
    state: TableState,
    plan: spec_fn(nat) -> Seq<int>,
    round: nat,
    seat: int,
)
    requires
        state.consistent(),
        fair(plan, state.seats()),
        0 <= seat < state.seats(),
    ensures
        served(state, rounds_on_end(plan, state.seats(), round), 0, seat),
{
    let stage = state.stages[seat];
    if stage == Stage::ClaimFirst {
        let count = lemma_rounds_to_first(state, plan, round, seat);
        lemma_served_in_rounds(state, plan, round, count, seat);
    } else if stage == Stage::ClaimSecond {
        let count = lemma_rounds_to_second(state, plan, round, seat);
        lemma_served_in_rounds(state, plan, round, count, seat);
    } else {
        assert(one_turn_each(plan(round), state.seats()));
        lemma_round_moves(state, plan(round), seat);
        lemma_served_in_round(state, plan, round, seat);
    }
}

/// When fair rounds follow one another, whoever can move at some time is
/// served at that time or later.
proof fn lemma_rounds_serve(
    state: TableState,
    plan: spec_fn(nat) -> Seq<int>,
    round: nat,
    time: nat,
    seat: int,
)
    requires
        state.consistent(),
        fair(plan, state.seats()),
        0 <= seat < state.seats(),
        !at(state, rounds_on_end(plan, state.seats(), round), time).blocked(seat),
    ensures
        served(state, rounds_on_end(plan, state.seats(), round), time, seat),
    decreases time,
{
    let seats = state.seats();
    let order = plan(round);
    let next = state.run(order);
    lemma_run_consistent(state, order);
    assert(one_turn_each(order, seats));
    if time >= seats {
        let rest = (time - seats) as nat;
        lemma_next_round(state, plan, round, rest);
        lemma_rounds_serve(next, plan, round + 1, rest, seat);
        let later = choose|later: nat|
            later >= rest && rounds_on_end(plan, seats, round + 1)(later) == seat && !(
            #[trigger] at(next, rounds_on_end(plan, seats, round + 1), later)).blocked(seat);
        lemma_next_round(state, plan, round, later);
        let found = (later + seats) as nat;
        assert(found >= time && rounds_on_end(plan, seats, round)(found) == seat && !at(
            state,
            rounds_on_end(plan, seats, round),
            found,
        ).blocked(seat));
    } else {
        assert(has_turn(order, seat));
        let turn = choose|turn: int| 0 <= turn < order.len() && order[turn] == seat;
        lemma_within_round(state, plan, round, turn as nat);
        if turn >= time && !at(state, rounds_on_end(plan, seats, round), turn as nat).blocked(
            seat,
        ) {
            assert(served(state, rounds_on_end(plan, seats, round), time, seat));
        } else {
            // The diner's turn in this round is over or comes to nothing: it
            // is served in a later round.
            lemma_served_late(state, plan, round, time, seat);
        }
    }
}

/// When fair rounds follow one another, everybody is served in a round after
/// the first, and so after any time in the first.
proof fn lemma_served_late(
    state: TableState,
    plan: spec_fn(nat) -> Seq<int>,
    round: nat,
    time: nat,
    seat: int,
)
    requires
        state.consistent(),
        fair(plan, state.seats()),
        0 <= seat < state.seats(),
        time <= state.seats(),
    ensures
        served(state, rounds_on_end(plan, state.seats(), round), time, seat),
{
    let seats = state.seats();
    let next = state.run(plan(round));
    lemma_run_consistent(state, plan(round));
    lemma_served_from_round(next, plan, round + 1, seat);
    let later = choose|later: nat|
        later >= 0 && rounds_on_end(plan, seats, round + 1)(later) == seat && !(#[trigger] at(
            next,
            rounds_on_end(plan, seats, round + 1),
            later,
        )).blocked(seat);
    lemma_next_round(state, plan, round, later);
    let found = (later + seats) as nat;
    assert(found >= time && rounds_on_end(plan, seats, round)(found) == seat && !at(
        state,
        rounds_on_end(plan, seats, round),
        found,
    ).blocked(seat));
}

/// Fair rounds that follow one another pass nobody over: an order of turns
/// in which every diner has exactly one turn in each round is fair.
pub proof fn lemma_fair_rounds_pass_nobody_over(state: TableState, plan: spec_fn(nat) -> Seq<int>)
    requires
        state.consistent(),
        fair(plan, state.seats()),
    ensures
        nobody_passed_over(state, rounds_on_end(plan, state.seats(), 0)),
{
    let order = rounds_on_end(plan, state.seats(), 0);
    assert forall|time: nat, seat: int|
        0 <= seat < state.seats() && !at(state, order, time).blocked(seat) implies #[trigger] served(
        state,
        order,
        time,
        seat,
    ) by {
        lemma_rounds_serve(state, plan, 0, time, seat);
    }
}

} // verus!
