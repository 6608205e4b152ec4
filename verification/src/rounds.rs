//! Turns taken in rounds: in every round each diner has exactly one turn, in
//! an order that may change from round to round. Under such turns every
//! diner comes to its meal within a fixed number of rounds, whatever state
//! the table is in when the rounds begin.
//!
//! Some fairness is needed. A diner whose neighbour is given several turns
//! between any two of its own can find the fork taken every time it polls,
//! and the last theorem here shows an order of turns under which it does.

use vstd::prelude::*;
use crate::diner::{Phase, Stage};
use crate::laws::{
    lemma_initial_consistent,
    lemma_run_concat,
    lemma_run_consistent,
    lemma_step_consistent,
};
use crate::model::TableState;
use crate::ring::{spec_other_diner, valid_ring};

verus! {

/// Whether `seat` has a turn in `order`.
pub open spec fn has_turn(order: Seq<int>, seat: int) -> bool {
    exists|turn: int| 0 <= turn < order.len() && order[turn] == seat
}

/// Whether `order` is one round at a table of `seats`: every diner has a
/// turn, and none has two.
pub open spec fn one_turn_each(order: Seq<int>, seats: int) -> bool {
    &&& order.len() == seats
    &&& forall|turn: int| 0 <= turn < order.len() ==> 0 <= #[trigger] order[turn] < seats
    &&& forall|seat: int| 0 <= seat < seats ==> has_turn(order, seat)
    &&& forall|one: int, other: int|
        0 <= one < other < order.len() ==> order[one] != order[other]
}

/// Whether every round of `plan` gives each diner at a table of `seats`
/// exactly one turn.
pub open spec fn fair(plan: spec_fn(nat) -> Seq<int>, seats: int) -> bool {
    forall|number: nat| one_turn_each(#[trigger] plan(number), seats)
}

/// The table after `count` rounds of `plan`, beginning with round `from`.
pub open spec fn after(
    state: TableState,
    plan: spec_fn(nat) -> Seq<int>,
    from: nat,
    count: nat,
) -> TableState
    decreases count,
{
    if count == 0 {
        state
    } else {
        after(state.run(plan(from)), plan, from + 1, (count - 1) as nat)
    }
}

/// The turns of `count` rounds of `plan`, beginning with round `from`, as one
/// schedule.
pub open spec fn turns(plan: spec_fn(nat) -> Seq<int>, from: nat, count: nat) -> Seq<int>
    decreases count,
{
    if count == 0 {
        Seq::empty()
    } else {
        plan(from) + turns(plan, from + 1, (count - 1) as nat)
    }
}

/// The other diner at the fork that the diner at `seat` polls.
pub open spec fn rival(state: TableState, seat: int) -> int {
    spec_other_diner(state.polled(seat), seat, state.seats())
}

/// Whether the rival of the diner at `seat`, were it at `stage`, would have
/// in hand the fork that the diner polls.
pub open spec fn rival_has_it(state: TableState, seat: int, stage: Stage) -> bool {
    stage.spec_holds(rival(state, seat), state.seats(), state.polled(seat))
}

/// Until its turn comes in a round, a diner stays where it was.
pub proof fn lemma_untouched(state: TableState, order: Seq<int>, turn: int, done: int)
    requires
        state.consistent(),
        one_turn_each(order, state.seats()),
        0 <= done <= turn < order.len(),
    ensures
        state.run(order.take(done)).consistent(),
        state.run(order.take(done)).seats() == state.seats(),
        state.run(order.take(done)).stages[order[turn]] == state.stages[order[turn]],
    decreases done,
{
    lemma_run_consistent(state, order.take(done));
    if done > 0 {
        lemma_untouched(state, order, turn, done - 1);
        assert(order.take(done).drop_last() =~= order.take(done - 1));
        lemma_step_consistent(state.run(order.take(done - 1)), order[done - 1]);
    }
}

/// After its turn in a round, a diner stays where the turn has left it.
pub proof fn lemma_settled(state: TableState, order: Seq<int>, turn: int, done: int)
    requires
        state.consistent(),
        one_turn_each(order, state.seats()),
        0 <= turn < done <= order.len(),
    ensures
        state.run(order.take(done)).stages[order[turn]] == state.run(order.take(turn)).step(
            order[turn],
        ).stages[order[turn]],
    decreases done,
{
    assert(order.take(done).drop_last() =~= order.take(done - 1));
    if done > turn + 1 {
        lemma_settled(state, order, turn, done - 1);
        lemma_run_consistent(state, order.take(done - 1));
        lemma_step_consistent(state.run(order.take(done - 1)), order[done - 1]);
    }
}

/// In a round, a diner that is past its claims moves on by one stage.
pub proof fn lemma_round_moves(state: TableState, order: Seq<int>, seat: int)
    requires
        state.consistent(),
        one_turn_each(order, state.seats()),
        0 <= seat < state.seats(),
        !state.stages[seat].claims(),
    ensures
        state.run(order).stages[seat] == state.stages[seat].spec_next(true),
{
    assert(has_turn(order, seat));
    let turn = choose|turn: int| 0 <= turn < order.len() && order[turn] == seat;
    lemma_untouched(state, order, turn, turn);
    lemma_settled(state, order, turn, order.len() as int);
    assert(order.take(order.len() as int) =~= order);
}

/// In a round, a diner at a claim either stays where it is or gets the fork
/// it polls. It stays if its rival has the fork in hand both before and
/// after the round, and gets the fork if the rival has it neither before nor
/// after.
pub proof fn lemma_round_polls(state: TableState, order: Seq<int>, seat: int)
    requires
        state.consistent(),
        one_turn_each(order, state.seats()),
        0 <= seat < state.seats(),
        state.stages[seat].claims(),
    ensures
        state.run(order).stages[seat] == state.stages[seat] || state.run(order).stages[seat]
            == state.stages[seat].spec_next(true),
        rival_has_it(state, seat, state.stages[rival(state, seat)]) && rival_has_it(
            state,
            seat,
            state.run(order).stages[rival(state, seat)],
        ) ==> state.run(order).stages[seat] == state.stages[seat],
        !rival_has_it(state, seat, state.stages[rival(state, seat)]) && !rival_has_it(
            state,
            seat,
            state.run(order).stages[rival(state, seat)],
        ) ==> state.run(order).stages[seat] == state.stages[seat].spec_next(true),
{
    let fork = state.polled(seat);
    let other = rival(state, seat);
    assert(has_turn(order, seat));
    assert(has_turn(order, other));
    let turn = choose|turn: int| 0 <= turn < order.len() && order[turn] == seat;
    let other_turn = choose|turn: int| 0 <= turn < order.len() && order[turn] == other;
    let before = state.run(order.take(turn));
    assert(order.take(order.len() as int) =~= order);
    lemma_untouched(state, order, turn, turn);
    lemma_settled(state, order, turn, order.len() as int);
    if other_turn < turn {
        lemma_settled(state, order, other_turn, turn);
        lemma_settled(state, order, other_turn, order.len() as int);
    } else {
        lemma_untouched(state, order, other_turn, turn);
    }
    assert(before.stages[other] == state.stages[other] || before.stages[other] == state.run(
        order,
    ).stages[other]);
    assert(before.fork_accounted(fork));
}

/// Any number of rounds keeps a consistent table consistent.
pub proof fn lemma_after_consistent(
    state: TableState,
    plan: spec_fn(nat) -> Seq<int>,
    from: nat,
    count: nat,
)
    requires
        state.consistent(),
    ensures
        after(state, plan, from, count).consistent(),
        after(state, plan, from, count).seats() == state.seats(),
    decreases count,
{
    if count > 0 {
        lemma_run_consistent(state, plan(from));
        lemma_after_consistent(state.run(plan(from)), plan, from + 1, (count - 1) as nat);
    }
}

/// Rounds add up.
pub proof fn lemma_after_add(
    state: TableState,
    plan: spec_fn(nat) -> Seq<int>,
    from: nat,
    first: nat,
    second: nat,
)
    ensures
        after(state, plan, from, first + second) == after(
            after(state, plan, from, first),
            plan,
            from + first,
            second,
        ),
    decreases first,
{
    if first > 0 {
        lemma_after_add(state.run(plan(from)), plan, from + 1, (first - 1) as nat, second);
    }
}

/// Rounds are what their turns run, taken as one schedule.
pub proof fn lemma_after_runs_turns(
    state: TableState,
    plan: spec_fn(nat) -> Seq<int>,
    from: nat,
    count: nat,
)
    ensures
        after(state, plan, from, count) == state.run(turns(plan, from, count)),
    decreases count,
{
    if count > 0 {
        lemma_after_runs_turns(state.run(plan(from)), plan, from + 1, (count - 1) as nat);
        lemma_run_concat(state, plan(from), turns(plan, from + 1, (count - 1) as nat));
    }
}

/// Whether the diner at `seat` is at `stage` at the beginning of each of the
/// first `count` rounds of `plan`, beginning with round `from`.
pub open spec fn waits(
    state: TableState,
    plan: spec_fn(nat) -> Seq<int>,
    from: nat,
    seat: int,
    stage: Stage,
    count: nat,
) -> bool {
    forall|done: nat|
        done < count ==> (#[trigger] after(state, plan, from, done)).stages[seat] == stage
}

/// The table after one round and more is the table after the more, begun
/// where the one round ends.
pub proof fn lemma_after_unfold(
    state: TableState,
    plan: spec_fn(nat) -> Seq<int>,
    from: nat,
    done: nat,
)
    requires
        done > 0,
    ensures
        after(state, plan, from, done) == after(
            state.run(plan(from)),
            plan,
            from + 1,
            (done - 1) as nat,
        ),
{
}

/// A diner that is at a stage now, and waits there through `more` rounds
/// from the end of this one, waits there through this round and the `more`.
pub proof fn lemma_waits_from_now(
    state: TableState,
    plan: spec_fn(nat) -> Seq<int>,
    from: nat,
    seat: int,
    stage: Stage,
    more: nat,
)
    requires
        state.stages[seat] == stage,
        waits(state.run(plan(from)), plan, from + 1, seat, stage, more),
    ensures
        waits(state, plan, from, seat, stage, more + 1),
{
    assert forall|done: nat| done < more + 1 implies (#[trigger] after(
        state,
        plan,
        from,
        done,
    )).stages[seat] == stage by {
        if done > 0 {
            lemma_after_unfold(state, plan, from, done);
        }
    }
}

/// A diner that waits at a stage through `first` rounds, and then through
/// `second` more, waits there through all of them.
pub proof fn lemma_waits_add(
    state: TableState,
    plan: spec_fn(nat) -> Seq<int>,
    from: nat,
    seat: int,
    stage: Stage,
    first: nat,
    second: nat,
)
    requires
        waits(state, plan, from, seat, stage, first),
        waits(after(state, plan, from, first), plan, from + first, seat, stage, second),
    ensures
        waits(state, plan, from, seat, stage, first + second),
{
    assert forall|done: nat| done < first + second implies (#[trigger] after(
        state,
        plan,
        from,
        done,
    )).stages[seat] == stage by {
        if done >= first {
            lemma_after_add(state, plan, from, first, (done - first) as nat);
        }
    }
}

/// A diner at a claim whose rival is past its own claims gets the fork once
/// the rival has put it back: at the latest one round after the rival has
/// come to rest. Until then it stays where it is.
pub proof fn lemma_rival_leaves(
    state: TableState,
    plan: spec_fn(nat) -> Seq<int>,
    from: nat,
    seat: int,
) -> (count: nat)
    requires
        state.consistent(),
        fair(plan, state.seats()),
        0 <= seat < state.seats(),
        state.stages[seat].claims(),
        !state.stages[rival(state, seat)].claims(),
    ensures
        1 <= count <= state.stages[rival(state, seat)].turns_to_rest() + 1,
        after(state, plan, from, count).stages[seat] == state.stages[seat].spec_next(true),
        waits(state, plan, from, seat, state.stages[seat], count),
    decreases state.stages[rival(state, seat)].turns_to_rest(),
{
    let next = state.run(plan(from));
    lemma_round_polls(state, plan(from), seat);
    lemma_round_moves(state, plan(from), rival(state, seat));
    lemma_run_consistent(state, plan(from));
    lemma_after_unfold(state, plan, from, 1);
    if next.stages[seat] != state.stages[seat] {
        1
    } else {
        let more = lemma_rival_leaves(next, plan, from + 1, seat);
        lemma_waits_from_now(state, plan, from, seat, state.stages[seat], more);
        lemma_after_unfold(state, plan, from, more + 1);
        more + 1
    }
}

/// A diner at a claim stays where it is for as long as its rival has the
/// fork it polls in hand at the end of every round.
pub proof fn lemma_stays_while(
    state: TableState,
    plan: spec_fn(nat) -> Seq<int>,
    from: nat,
    seat: int,
    count: nat,
)
    requires
        state.consistent(),
        fair(plan, state.seats()),
        0 <= seat < state.seats(),
        state.stages[seat].claims(),
        forall|done: nat|
            done <= count ==> rival_has_it(
                state,
                seat,
                (#[trigger] after(state, plan, from, done)).stages[rival(state, seat)],
            ),
    ensures
        waits(state, plan, from, seat, state.stages[seat], count + 1),
    decreases count,
{
    if count > 0 {
        let next = state.run(plan(from));
        lemma_round_polls(state, plan(from), seat);
        lemma_run_consistent(state, plan(from));
        assert(after(state, plan, from, 0) == state);
        lemma_after_unfold(state, plan, from, 1);
        assert forall|done: nat| done <= count - 1 implies rival_has_it(
            next,
            seat,
            (#[trigger] after(next, plan, from + 1, done)).stages[rival(next, seat)],
        ) by {
            lemma_after_unfold(state, plan, from, done + 1);
        }
        lemma_stays_while(next, plan, from + 1, seat, (count - 1) as nat);
        lemma_waits_from_now(state, plan, from, seat, state.stages[seat], count);
    }
}

/// A diner that waits for a second fork with an odd index, which is second
/// for both diners at it, has the fork within seven rounds, and waits until
/// then.
pub proof fn lemma_rounds_to_plain_second(
    state: TableState,
    plan: spec_fn(nat) -> Seq<int>,
    from: nat,
    seat: int,
) -> (count: nat)
    requires
        state.consistent(),
        fair(plan, state.seats()),
        0 <= seat < state.seats(),
        state.stages[seat] == Stage::ClaimSecond,
        state.second_of(seat) % 2 == 1,
    ensures
        1 <= count <= 7,
        after(state, plan, from, count).stages[seat] == Stage::AnnounceStart,
        waits(state, plan, from, seat, Stage::ClaimSecond, count),
{
    if !state.stages[rival(state, seat)].claims() {
        lemma_rival_leaves(state, plan, from, seat)
    } else {
        let next = state.run(plan(from));
        lemma_round_polls(state, plan(from), seat);
        lemma_run_consistent(state, plan(from));
        lemma_after_unfold(state, plan, from, 1);
        if next.stages[seat] == Stage::AnnounceStart {
            1
        } else {
            let more = lemma_rival_leaves(next, plan, from + 1, seat);
            lemma_waits_from_now(state, plan, from, seat, Stage::ClaimSecond, more);
            lemma_after_unfold(state, plan, from, more + 1);
            more + 1
        }
    }
}

/// The most rounds that a diner waits for its second fork.
pub open spec fn rounds_to_second() -> nat {
    14
}

/// The most rounds that a diner waits for its first fork.
pub open spec fn rounds_to_first() -> nat {
    21
}

/// The most rounds after which a diner has come to its meal.
pub open spec fn rounds_to_eat() -> nat {
    38
}

/// A diner that waits for its second fork has it within `rounds_to_second()`
/// rounds, and waits until then.
pub proof fn lemma_rounds_to_second(
    state: TableState,
    plan: spec_fn(nat) -> Seq<int>,
    from: nat,
    seat: int,
) -> (count: nat)
    requires
        state.consistent(),
        fair(plan, state.seats()),
        0 <= seat < state.seats(),
        state.stages[seat] == Stage::ClaimSecond,
    ensures
        1 <= count <= rounds_to_second(),
        after(state, plan, from, count).stages[seat] == Stage::AnnounceStart,
        waits(state, plan, from, seat, Stage::ClaimSecond, count),
{
    if state.second_of(seat) % 2 == 1 {
        lemma_rounds_to_plain_second(state, plan, from, seat)
    } else {
        // Only the last diner of an odd ring has an even second fork: fork 0,
        // which is the first fork of its rival, the diner at seat 0.
        let next = state.run(plan(from));
        lemma_round_polls(state, plan(from), seat);
        lemma_run_consistent(state, plan(from));
        lemma_after_unfold(state, plan, from, 1);
        if next.stages[seat] == Stage::AnnounceStart {
            1
        } else {
            if state.stages[0].claims() {
                lemma_round_polls(state, plan(from), 0);
            } else {
                lemma_round_moves(state, plan(from), 0);
            }
            let feed = if next.stages[0].claims() {
                let feed = lemma_rounds_to_plain_second(next, plan, from + 1, 0);
                lemma_stays_while(next, plan, from + 1, seat, feed);
                feed
            } else {
                0
            };
            let fed = after(next, plan, from + 1, feed);
            lemma_after_consistent(next, plan, from + 1, feed);
            let more = lemma_rival_leaves(fed, plan, from + 1 + feed, seat);
            lemma_waits_add(next, plan, from + 1, seat, Stage::ClaimSecond, feed, more);
            lemma_waits_from_now(state, plan, from, seat, Stage::ClaimSecond, feed + more);
            lemma_after_add(next, plan, from + 1, feed, more);
            lemma_after_unfold(state, plan, from, 1 + feed + more);
            1 + feed + more
        }
    }
}

/// A diner that waits for its first fork has it within `rounds_to_first()`
/// rounds.
pub proof fn lemma_rounds_to_first(
    state: TableState,
    plan: spec_fn(nat) -> Seq<int>,
    from: nat,
    seat: int,
) -> (count: nat)
    requires
        state.consistent(),
        fair(plan, state.seats()),
        0 <= seat < state.seats(),
        state.stages[seat] == Stage::ClaimFirst,
    ensures
        1 <= count <= rounds_to_first(),
        after(state, plan, from, count).stages[seat] == Stage::ClaimSecond,
{
    let other = rival(state, seat);
    if !state.stages[other].claims() {
        lemma_rival_leaves(state, plan, from, seat)
    } else {
        let next = state.run(plan(from));
        lemma_round_polls(state, plan(from), seat);
        lemma_round_polls(state, plan(from), other);
        lemma_run_consistent(state, plan(from));
        lemma_after_unfold(state, plan, from, 1);
        if next.stages[seat] == Stage::ClaimSecond {
            1
        } else {
            let feed = if next.stages[other].claims() {
                let feed = lemma_rounds_to_second(next, plan, from + 1, other);
                lemma_stays_while(next, plan, from + 1, seat, feed);
                feed
            } else {
                0
            };
            let fed = after(next, plan, from + 1, feed);
            lemma_after_consistent(next, plan, from + 1, feed);
            let more = lemma_rival_leaves(fed, plan, from + 1 + feed, seat);
            lemma_after_add(next, plan, from + 1, feed, more);
            lemma_after_unfold(state, plan, from, 1 + feed + more);
            1 + feed + more
        }
    }
}

/// A diner that is past its meal is hungry again within three rounds.
pub proof fn lemma_rounds_to_hunger(
    state: TableState,
    plan: spec_fn(nat) -> Seq<int>,
    from: nat,
    seat: int,
) -> (count: nat)
    requires
        state.consistent(),
        fair(plan, state.seats()),
        0 <= seat < state.seats(),
        state.stages[seat].spec_phase() == Phase::Releasing,
    ensures
        count == state.stages[seat].turns_to_rest() + 1,
        1 <= count <= 3,
        after(state, plan, from, count).stages[seat] == Stage::ClaimFirst,
    decreases state.stages[seat].turns_to_rest(),
{
    let next = state.run(plan(from));
    lemma_round_moves(state, plan(from), seat);
    lemma_run_consistent(state, plan(from));
    lemma_after_unfold(state, plan, from, 1);
    if state.stages[seat] == Stage::Rest {
        1
    } else {
        let more = lemma_rounds_to_hunger(next, plan, from + 1, seat);
        lemma_after_unfold(state, plan, from, more + 1);
        more + 1
    }
}

/// When the diners at a consistent table take their turns in fair rounds,
/// every diner has come to its meal after no more than `rounds_to_eat()`
/// rounds: after the number of rounds returned.
pub proof fn lemma_rounds_to_meal(
    state: TableState,
    plan: spec_fn(nat) -> Seq<int>,
    from: nat,
    seat: int,
) -> (count: nat)
    requires
        state.consistent(),
        fair(plan, state.seats()),
        0 <= seat < state.seats(),
    ensures
        count <= rounds_to_eat(),
        after(state, plan, from, count).stages[seat].spec_phase() == Phase::Eating,
{
    if state.stages[seat].spec_phase() == Phase::Eating {
        0
    } else {
        let back = if state.stages[seat].spec_phase() == Phase::Releasing {
            lemma_rounds_to_hunger(state, plan, from, seat)
        } else {
            0
        };
        let hungry = after(state, plan, from, back);
        lemma_after_consistent(state, plan, from, back);
        let first = if hungry.stages[seat] == Stage::ClaimFirst {
            lemma_rounds_to_first(hungry, plan, from + back, seat)
        } else {
            0
        };
        let waiting = after(hungry, plan, from + back, first);
        lemma_after_consistent(hungry, plan, from + back, first);
        let second = lemma_rounds_to_second(waiting, plan, from + back + first, seat);
        lemma_after_add(state, plan, from, back, first);
        lemma_after_add(state, plan, from, back + first, second);
        back + first + second
    }
}

/// Progress under fair turns: whatever the order in which the diners of a
/// valid ring have taken their turns so far, once they take them in rounds,
/// each diner exactly once in every round, every diner comes to its meal
/// within `rounds_to_eat()` rounds.
pub proof fn theorem_fair_rounds_feed_everyone(
    seats: int,
    past: Seq<int>,
    plan: spec_fn(nat) -> Seq<int>,
    seat: int,
)
    requires
        valid_ring(seats),
        0 <= seat < seats,
        fair(plan, seats),
    ensures
        exists|count: nat|
            count <= rounds_to_eat() && #[trigger] TableState::initial(seats).run(
                past + turns(plan, 0, count),
            ).stages[seat].spec_phase() == Phase::Eating,
{
    let start = TableState::initial(seats);
    lemma_initial_consistent(seats);
    lemma_run_consistent(start, past);
    let count = lemma_rounds_to_meal(start.run(past), plan, 0, seat);
    lemma_after_runs_turns(start.run(past), plan, 0, count);
    lemma_run_concat(start, past, turns(plan, 0, count));
}

/// The seats from 0 up to, and without, `count`, in their order.
pub open spec fn in_order(count: int) -> Seq<int> {
    Seq::new(count as nat, |turn: int| turn)
}

/// The table after a round in the order of the seats.
pub open spec fn round(state: TableState) -> TableState {
    state.run(in_order(state.seats()))
}

/// The plan in which every round goes in the order of the seats.
pub open spec fn circle(seats: int) -> spec_fn(nat) -> Seq<int> {
    |number: nat| in_order(seats)
}

/// Turns in the order of the seats, round after round, are fair rounds.
pub proof fn lemma_circle_is_fair(seats: int)
    requires
        0 <= seats,
    ensures
        fair(circle(seats), seats),
{
    assert forall|seat: int| 0 <= seat < seats implies has_turn(in_order(seats), seat) by {
        assert(in_order(seats)[seat] == seat);
    }
}

/// Nobody starves when the turns go round the table: whatever the order in
/// which the diners of a valid ring have taken their turns so far, once they
/// take them in the order of the seats, round after round, every diner comes
/// to its meal within `rounds_to_eat()` rounds.
pub proof fn theorem_circle_feeds_everyone(seats: int, past: Seq<int>, seat: int)
    requires
        valid_ring(seats),
        0 <= seat < seats,
    ensures
        exists|count: nat|
            count <= rounds_to_eat() && #[trigger] TableState::initial(seats).run(
                past + turns(circle(seats), 0, count),
            ).stages[seat].spec_phase() == Phase::Eating,
{
    lemma_circle_is_fair(seats);
    theorem_fair_rounds_feed_everyone(seats, past, circle(seats), seat);
}

/// Nine turns at a table of two in which the diner at seat 1 has one turn,
/// just when the diner at seat 0 has both forks, and after which the table is
/// as it was.
pub open spec fn unfair_turns() -> Seq<int> {
    seq![0, 0, 1, 0, 0, 0, 0, 0, 0]
}

/// `count` times the nine unfair turns, on end.
pub open spec fn unfair_schedule(count: nat) -> Seq<int>
    decreases count,
{
    if count == 0 {
        Seq::empty()
    } else {
        unfair_schedule((count - 1) as nat) + unfair_turns()
    }
}

/// Without fair turns a diner can starve, though it is given a turn again
/// and again: at a table of two, under the unfair schedule, the diner at
/// seat 1 has a turn in every nine and is still waiting for its first fork
/// after any number of turns, while the diner at seat 0 has meal after meal.
pub proof fn theorem_unfair_turns_starve(count: nat, more: int)
    requires
        0 <= more <= 9,
    ensures
        TableState::initial(2).run(unfair_schedule(count)) == TableState::initial(2),
        TableState::initial(2).run(unfair_schedule(count) + unfair_turns().take(more)).stages[1]
            == Stage::ClaimFirst,
        TableState::initial(2).run(unfair_schedule(count) + unfair_turns().take(2)).stages[0]
            == Stage::AnnounceStart,
    decreases count,
{
    let start = TableState::initial(2);
    if count > 0 {
        theorem_unfair_turns_starve((count - 1) as nat, more);
        lemma_run_concat(start, unfair_schedule((count - 1) as nat), unfair_turns());
    }
    lemma_run_concat(start, unfair_schedule(count), unfair_turns().take(more));
    lemma_run_concat(start, unfair_schedule(count), unfair_turns().take(2));
    lemma_unfair_turns(more);
    lemma_unfair_turns(2);
    lemma_unfair_turns(9);
    assert(unfair_turns().take(9) =~= unfair_turns());
}

/// Through the nine unfair turns the diner at seat 1 stays hungry; after two
/// of them the diner at seat 0 begins its meal, and after all nine the table
/// is as it was.
proof fn lemma_unfair_turns(done: int)
    requires
        0 <= done <= 9,
    ensures
        TableState::initial(2).run(unfair_turns().take(done)).stages[1] == Stage::ClaimFirst,
        TableState::initial(2).run(unfair_turns().take(done)).well_formed(),
        done == 2 ==> TableState::initial(2).run(unfair_turns().take(done)).stages[0]
            == Stage::AnnounceStart,
        done == 9 ==> TableState::initial(2).run(unfair_turns().take(done)) == TableState::initial(
            2,
        ),
        TableState::initial(2).run(unfair_turns().take(done)).stages[0] == unfair_stage(done),
        TableState::initial(2).run(unfair_turns().take(done)).forks =~= unfair_forks(done),
    decreases done,
{
    let start = TableState::initial(2);
    if done > 0 {
        lemma_unfair_turns(done - 1);
        assert(unfair_turns().take(done).drop_last() =~= unfair_turns().take(done - 1));
        let before = start.run(unfair_turns().take(done - 1));
        let after = before.step(unfair_turns()[done - 1]);
        if done == 9 {
            assert(after.stages =~= start.stages);
            assert(after.forks =~= start.forks);
        }
    }
}

/// The stage of the diner at seat 0 after `done` of the nine unfair turns.
spec fn unfair_stage(done: int) -> Stage {
    if done == 0 || done == 9 {
        Stage::ClaimFirst
    } else if done == 1 {
        Stage::ClaimSecond
    } else if done == 2 || done == 3 {
        Stage::AnnounceStart
    } else if done == 4 {
        Stage::Work
    } else if done == 5 {
        Stage::AnnounceStop
    } else if done == 6 {
        Stage::ReleaseFirst
    } else if done == 7 {
        Stage::ReleaseSecond
    } else {
        Stage::Rest
    }
}

/// The forks after `done` of the nine unfair turns.
spec fn unfair_forks(done: int) -> Seq<bool> {
    if done == 0 || done >= 8 {
        seq![true, true]
    } else if done == 1 {
        seq![false, true]
    } else if done == 7 {
        seq![true, false]
    } else {
        seq![false, false]
    }
}

} // verus!
