use std::collections::{HashSet, VecDeque};

use dining_philosophers::diner::{Action, Notice, Phase, Stage};
use dining_philosophers::launch::start_millis;
use dining_philosophers::ring::{first_fork, second_fork};
use dining_philosophers::table::Table;

/// A line that a diner printed, with the simulated time in milliseconds.
#[derive(Clone, Copy, Debug, PartialEq, Eq)]
struct Line {
    at: u64,
    seat: usize,
    notice: Notice,
}

/// Checks that no fork is in two hands and that a fork is free exactly when
/// it is in none.
fn assert_exclusive(table: &Table) {
    let seats = table.seats();
    for fork in 0..seats {
        let mut holders = Vec::new();
        for seat in 0..seats {
            if table.holds(seat, fork) {
                holders.push(seat);
            }
        }
        assert!(holders.len() <= 1, "fork {} is held by {:?}", fork, holders);
        assert_eq!(table.is_free(fork), holders.is_empty());
        assert_eq!(table.holder(fork), holders.first().copied());
    }
}

/// Checks that a diner is in its meal only with both its forks in hand.
fn assert_meals_have_forks(table: &Table) {
    let seats = table.seats();
    for seat in 0..seats {
        if table.stage(seat).phase() == Phase::Eating {
            assert_eq!(table.holder(first_fork(seat, seats)), Some(seat));
            assert_eq!(table.holder(second_fork(seat, seats)), Some(seat));
        }
    }
}

/// Runs a table on a simulated clock. Each diner starts at its staggered
/// time, a pause lasts as long as its action says (a rest lasts `rest` where
/// that is given), a diner that polls in vain polls again after `poll`
/// milliseconds, and everything else takes no time. Of the diners that are
/// due, the one that has waited longest takes the next turn.
fn simulate(seats: usize, until: u64, rest: Option<u64>, poll: u64) -> (Vec<Line>, Table) {
    let mut table = Table::new(seats);
    let mut due: Vec<u64> = (0..seats).map(start_millis).collect();
    let mut last_turn: Vec<u64> = vec![0; seats];
    let mut turns: u64 = 0;
    let mut lines = Vec::new();
    loop {
        let mut seat = 0;
        for other in 1..seats {
            if (due[other], last_turn[other]) < (due[seat], last_turn[seat]) {
                seat = other;
            }
        }
        let now = due[seat];
        if now >= until {
            break;
        }
        turns += 1;
        last_turn[seat] = turns;
        let stage = table.stage(seat);
        let action = table.action(seat);
        let moved = table.step(seat);
        assert_exclusive(&table);
        assert_meals_have_forks(&table);
        match action {
            Action::Claim(_) => {
                if !moved {
                    due[seat] = now + poll;
                }
            }
            Action::Announce(notice) => {
                assert!(moved);
                lines.push(Line { at: now, seat, notice });
            }
            Action::Pause(millis) => {
                assert!(moved);
                let pause = match (stage, rest) {
                    (Stage::Rest, Some(rest)) => rest,
                    _ => millis,
                };
                due[seat] = now + pause;
            }
            Action::Release(_) => {
                assert!(moved);
            }
        }
    }
    (lines, table)
}

/// Checks that each diner's lines alternate between the start and the end of
/// a meal, a second apart, and that no two diners who share a fork are in
/// their meals at the same time. Returns the number of meals begun per seat.
fn assert_meals_do_not_overlap(lines: &[Line], seats: usize) -> Vec<usize> {
    let mut eating_since: Vec<Option<u64>> = vec![None; seats];
    let mut meals = vec![0; seats];
    for line in lines {
        let left = (line.seat + seats - 1) % seats;
        let right = (line.seat + 1) % seats;
        match line.notice {
            Notice::Eating => {
                assert_eq!(eating_since[line.seat], None);
                assert_eq!(eating_since[left], None, "{:?} overlaps seat {}", line, left);
                assert_eq!(eating_since[right], None, "{:?} overlaps seat {}", line, right);
                eating_since[line.seat] = Some(line.at);
                meals[line.seat] += 1;
            }
            Notice::Stopped => {
                assert_eq!(eating_since[line.seat], Some(line.at - 1000));
                eating_since[line.seat] = None;
            }
        }
    }
    meals
}

#[test]
fn five_diners_in_steady_state() {
    let (lines, _) = simulate(5, 10_000, None, 1);
    let meals = assert_meals_do_not_overlap(&lines, 5);
    for seat in 0..5 {
        assert!(meals[seat] >= 2, "seat {} had {} meals", seat, meals[seat]);
    }
    let mut interleaved = false;
    for pair in lines.windows(2) {
        if pair[0].notice == Notice::Eating && pair[1].notice == Notice::Eating {
            assert_ne!(pair[0].seat, pair[1].seat);
            interleaved = true;
        }
    }
    assert!(interleaved);
    assert_eq!(lines[0], Line { at: 200, seat: 0, notice: Notice::Eating });
    let text: Vec<String> = lines.iter().map(|line| line.notice.line(line.seat)).collect();
    assert_eq!(text[0], "Philosopher 0 is eating!");
    assert!(text.contains(&String::from("Philosopher 0 Stopped eating!!")));
    assert!(text.contains(&String::from("Philosopher 3 is eating!")));
    assert!(text.contains(&String::from("Philosopher 4 Stopped eating!!")));
}

#[test]
fn five_diners_keep_going_for_a_long_time() {
    let (lines, table) = simulate(5, 120_000, None, 1);
    let meals = assert_meals_do_not_overlap(&lines, 5);
    for seat in 0..5 {
        assert!(meals[seat] >= 20, "seat {} had {} meals", seat, meals[seat]);
    }
    assert!(!table.is_blocked(table.first_movable()));
}

#[test]
fn two_diners_take_their_meals_in_turn() {
    let (lines, table) = simulate(2, 60_000, None, 1);
    let meals = assert_meals_do_not_overlap(&lines, 2);
    assert!(meals[0] >= 10, "seat 0 had {} meals", meals[0]);
    assert!(meals[1] >= 10, "seat 1 had {} meals", meals[1]);
    for pair in lines.windows(2) {
        if pair[0].notice == Notice::Eating {
            assert_eq!(pair[1].notice, Notice::Stopped);
            assert_eq!(pair[1].seat, pair[0].seat);
        }
    }
    assert!(!table.is_blocked(table.first_movable()));
}

#[test]
fn diners_that_never_rest_still_exclude_each_other() {
    for seats in 2..7 {
        let (lines, _) = simulate(seats, 30_000, Some(0), 1);
        let meals = assert_meals_do_not_overlap(&lines, seats);
        assert!(meals.iter().sum::<usize>() >= 20);
    }
}

#[test]
fn a_diner_that_comes_straight_back_meets_no_one_at_its_forks() {
    for seats in 2..6 {
        let mut table = Table::new(seats);
        let mut meals = 0;
        for turn in 0..20_000 {
            let before = table.stage(0);
            table.step(0);
            if before == Stage::ClaimSecond && table.stage(0) == Stage::AnnounceStart {
                meals += 1;
            }
            assert_exclusive(&table);
            assert_meals_have_forks(&table);
            if turn % 3 == 0 {
                table.step(1 + (turn / 3) % (seats - 1));
                assert_exclusive(&table);
                assert_meals_have_forks(&table);
            }
        }
        assert!(meals >= 100, "seat 0 of {} had {} meals", seats, meals);
    }
}

/// A state of the table as a key: the stage of every diner, then the forks.
fn key(table: &Table) -> Vec<u8> {
    let seats = table.seats();
    let mut key = Vec::new();
    for seat in 0..seats {
        key.push(match table.stage(seat) {
            Stage::ClaimFirst => 0,
            Stage::ClaimSecond => 1,
            Stage::AnnounceStart => 2,
            Stage::Work => 3,
            Stage::AnnounceStop => 4,
            Stage::ReleaseFirst => 5,
            Stage::ReleaseSecond => 6,
            Stage::Rest => 7,
        });
    }
    for fork in 0..seats {
        key.push(if table.is_free(fork) { 1 } else { 0 });
    }
    key
}

/// Every state that some order of turns leads to from a new table.
fn reachable(seats: usize) -> Vec<Table> {
    let start = Table::new(seats);
    let mut seen = HashSet::new();
    seen.insert(key(&start));
    let mut queue = VecDeque::new();
    queue.push_back(start.clone());
    let mut states = vec![start];
    while let Some(table) = queue.pop_front() {
        for seat in 0..seats {
            let mut next = table.clone();
            let moved = next.step(seat);
            assert_eq!(moved, !table.is_blocked(seat));
            if !moved {
                assert_eq!(key(&next), key(&table));
            }
            if seen.insert(key(&next)) {
                queue.push_back(next.clone());
                states.push(next);
            }
        }
    }
    states
}

#[test]
fn no_order_of_turns_leads_two_diners_to_one_fork() {
    for seats in 2..6 {
        for table in reachable(seats) {
            assert_exclusive(&table);
            assert_meals_have_forks(&table);
        }
    }
}

#[test]
fn no_order_of_turns_leads_to_a_deadlock() {
    let expected = [30, 148, 802, 4244];
    for seats in 2..6 {
        let states = reachable(seats);
        assert_eq!(states.len(), expected[seats - 2]);
        for table in states {
            let movable: Vec<usize> = (0..seats).filter(|seat| !table.is_blocked(*seat)).collect();
            assert!(!movable.is_empty());
            assert_eq!(table.first_movable(), movable[0]);
            let all_wait_for_second =
                (0..seats).all(|seat| table.stage(seat) == Stage::ClaimSecond);
            assert!(!all_wait_for_second);
        }
    }
}

#[test]
fn turns_in_a_circle_feed_everyone() {
    for seats in 2..6 {
        for start in reachable(seats) {
            let mut table = start.clone();
            let mut hungry: Vec<bool> =
                (0..seats).map(|seat| table.stage(seat).phase() != Phase::Eating).collect();
            let mut rounds = 0;
            while hungry.iter().any(|waiting| *waiting) {
                assert!(rounds < 24, "someone is still hungry after {} rounds", rounds);
                table.round();
                for seat in 0..seats {
                    if table.stage(seat).phase() == Phase::Eating {
                        hungry[seat] = false;
                    }
                }
                rounds += 1;
            }
        }
    }
}

/// Every order in which `seats` diners can take one turn each.
fn orders(seats: usize) -> Vec<Vec<usize>> {
    let mut all = vec![Vec::new()];
    for _ in 0..seats {
        let mut longer = Vec::new();
        for order in &all {
            for seat in 0..seats {
                if !order.contains(&seat) {
                    let mut next = order.clone();
                    next.push(seat);
                    longer.push(next);
                }
            }
        }
        all = longer;
    }
    all
}

#[test]
fn rounds_in_any_order_feed_everyone() {
    let expected = [9, 21, 15];
    for seats in 2..5 {
        let states = reachable(seats);
        let mut index = std::collections::HashMap::new();
        for (number, table) in states.iter().enumerate() {
            index.insert(key(table), number);
        }
        let orders = orders(seats);
        let mut after: Vec<Vec<usize>> = Vec::new();
        for table in &states {
            let mut next = Vec::new();
            for order in &orders {
                let mut moved = table.clone();
                moved.run(order);
                next.push(index[&key(&moved)]);
            }
            next.sort();
            next.dedup();
            after.push(next);
        }
        let mut worst = 0;
        for seat in 0..seats {
            let mut rounds: Vec<usize> = vec![0; states.len()];
            for _ in 0..38 {
                let mut longer = vec![0; states.len()];
                for (number, table) in states.iter().enumerate() {
                    if table.stage(seat).phase() != Phase::Eating {
                        let most = after[number].iter().map(|next| rounds[*next]).max();
                        longer[number] = 1 + most.unwrap();
                    }
                }
                rounds = longer;
            }
            let most = rounds.iter().copied().max().unwrap();
            assert!(most < 38, "seat {} of {} can be kept hungry", seat, seats);
            worst = worst.max(most);
        }
        assert_eq!(worst, expected[seats - 2]);
    }
}

#[test]
fn random_rounds_feed_everyone() {
    let mut seed: u64 = 0x1357_9bdf_0246_8ace;
    for seats in 2..9 {
        let mut table = Table::new(seats);
        let mut since_meal = vec![0; seats];
        for _ in 0..3_000 {
            let mut order: Vec<usize> = (0..seats).collect();
            for place in (1..seats).rev() {
                seed ^= seed << 13;
                seed ^= seed >> 7;
                seed ^= seed << 17;
                order.swap(place, (seed % (place as u64 + 1)) as usize);
            }
            table.run(&order);
            assert_exclusive(&table);
            for seat in 0..seats {
                if table.stage(seat).phase() == Phase::Eating {
                    since_meal[seat] = 0;
                } else {
                    since_meal[seat] += 1;
                    assert!(since_meal[seat] <= 38);
                }
            }
        }
    }
}

#[test]
fn every_diner_can_be_brought_to_its_meal_in_a_few_turns() {
    for seats in 2..5 {
        for start in reachable(seats) {
            for seat in 0..seats {
                let mut seen = HashSet::new();
                seen.insert(key(&start));
                let mut queue = VecDeque::new();
                queue.push_back((start.clone(), 0));
                let mut turns = None;
                while let Some((table, depth)) = queue.pop_front() {
                    if table.stage(seat).phase() == Phase::Eating {
                        turns = Some(depth);
                        break;
                    }
                    for mover in 0..seats {
                        let mut next = table.clone();
                        next.step(mover);
                        if seen.insert(key(&next)) {
                            queue.push_back((next, depth + 1));
                        }
                    }
                }
                assert!(turns.is_some());
                assert!(turns.unwrap() <= 33);
            }
        }
    }
}

#[test]
fn a_diner_whose_turns_always_come_at_the_wrong_moment_starves() {
    let mut table = Table::new(2);
    for _ in 0..200 {
        table.run(&vec![0, 0]);
        assert_eq!(table.stage(0), Stage::AnnounceStart);
        assert!(!table.step(1));
        assert_eq!(table.stage(1), Stage::ClaimFirst);
        table.run(&vec![0, 0, 0, 0, 0, 0]);
        assert_eq!(table.stage(0), Stage::ClaimFirst);
    }
    assert_eq!(table.stage(1), Stage::ClaimFirst);
}

#[test]
fn random_orders_of_turns_keep_the_table_sound() {
    let mut seed: u64 = 0x2545_f491_4f6c_dd1d;
    for seats in 2..9 {
        let mut table = Table::new(seats);
        let mut meals = vec![0; seats];
        for _ in 0..20_000 {
            seed ^= seed << 13;
            seed ^= seed >> 7;
            seed ^= seed << 17;
            let seat = (seed % seats as u64) as usize;
            let before = table.stage(seat);
            table.step(seat);
            if before == Stage::ClaimSecond && table.stage(seat) == Stage::AnnounceStart {
                meals[seat] += 1;
            }
            assert_exclusive(&table);
            assert!(!table.is_blocked(table.first_movable()));
        }
        for seat in 0..seats {
            assert!(meals[seat] > 0, "seat {} of {} never ate", seat, seats);
        }
    }
}

#[test]
fn turns_that_pass_nobody_over_feed_everyone_again_and_again() {
    let mut seed: u64 = 0x0f1e_2d3c_4b5a_6978;
    for seats in 2..8 {
        // Every diner has one turn in each round, in a fresh random order:
        // whoever can move then gets a turn at which it can move, as the
        // check below confirms, and everyone keeps coming to its meal.
        let mut table = Table::new(seats);
        let mut order = Vec::new();
        let mut could_move = Vec::new();
        let mut stages = Vec::new();
        for _ in 0..400 {
            let mut round: Vec<usize> = (0..seats).collect();
            for place in (1..seats).rev() {
                seed ^= seed << 13;
                seed ^= seed >> 7;
                seed ^= seed << 17;
                round.swap(place, (seed % (place as u64 + 1)) as usize);
            }
            for seat in round {
                could_move.push((0..seats).map(|each| !table.is_blocked(each)).collect::<Vec<_>>());
                stages.push((0..seats).map(|each| table.stage(each)).collect::<Vec<_>>());
                order.push(seat);
                table.step(seat);
            }
        }
        let horizon = order.len() - 100 * seats;
        for seat in 0..seats {
            let mut next_served = None;
            let mut next_meal = None;
            for time in (0..order.len()).rev() {
                if order[time] == seat && could_move[time][seat] {
                    next_served = Some(time);
                }
                if stages[time][seat].phase() == Phase::Eating {
                    next_meal = Some(time);
                }
                if time < horizon {
                    if could_move[time][seat] {
                        assert!(next_served.is_some());
                    }
                    assert!(next_meal.is_some(), "seat {} of {} starves", seat, seats);
                }
            }
        }
    }
}

#[test]
fn neighbours_are_never_in_their_meals_together_whatever_the_order() {
    for seats in 2..6 {
        for table in reachable(seats) {
            for seat in 0..seats {
                let next = (seat + 1) % seats;
                let both = table.stage(seat).phase() == Phase::Eating
                    && table.stage(next).phase() == Phase::Eating;
                assert!(!both);
            }
        }
    }
}
