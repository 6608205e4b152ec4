use dining_philosophers::diner::{Action, Notice, Phase, Stage};
use dining_philosophers::table::Table;

#[test]
fn a_new_table_has_every_fork_free_and_every_diner_hungry() {
    let table = Table::new(5);
    assert_eq!(table.seats(), 5);
    for seat in 0..5 {
        assert!(table.is_free(seat));
        assert_eq!(table.stage(seat), Stage::ClaimFirst);
        assert!(!table.is_blocked(seat));
        assert_eq!(table.holder(seat), None);
    }
    assert_eq!(table.first_movable(), 0);
}

#[test]
fn a_claim_takes_the_fork_off_the_table() {
    let mut table = Table::new(5);
    assert_eq!(table.action(0), Action::Claim(0));
    assert!(table.step(0));
    assert_eq!(table.stage(0), Stage::ClaimSecond);
    assert!(!table.is_free(0));
    assert!(table.holds(0, 0));
    assert!(!table.holds(0, 1));
    assert_eq!(table.holder(0), Some(0));
    assert_eq!(table.holder(1), None);
    assert_eq!(table.action(0), Action::Claim(1));
    assert!(table.step(0));
    assert_eq!(table.stage(0), Stage::AnnounceStart);
    assert!(!table.is_free(1));
    assert_eq!(table.holder(1), Some(0));
    for fork in 2..5 {
        assert!(table.is_free(fork));
    }
}

#[test]
fn a_diner_that_polls_a_taken_fork_stays_put() {
    let mut table = Table::new(5);
    assert!(table.step(1));
    assert_eq!(table.holder(2), Some(1));
    assert!(table.is_blocked(2));
    for _ in 0..20 {
        assert!(!table.step(2));
        assert_eq!(table.stage(2), Stage::ClaimFirst);
        assert_eq!(table.holder(2), Some(1));
    }
    assert!(!table.is_blocked(1));
    assert!(!table.is_blocked(0));
}

#[test]
fn the_second_claim_waits_for_the_neighbour_to_put_the_fork_back() {
    let mut table = Table::new(5);
    table.run(&vec![0, 0]);
    assert_eq!(table.stage(0).phase(), Phase::Eating);
    assert!(table.step(1));
    assert_eq!(table.stage(1), Stage::ClaimSecond);
    assert!(table.is_blocked(1));
    assert!(!table.step(1));
    table.run(&vec![0, 0, 0]);
    assert_eq!(table.stage(0), Stage::ReleaseFirst);
    assert!(table.is_blocked(1));
    assert!(table.step(0));
    assert!(table.is_free(0));
    assert!(table.is_blocked(1));
    assert!(table.step(0));
    assert!(table.is_free(1));
    assert!(!table.is_blocked(1));
    assert!(table.step(1));
    assert_eq!(table.stage(1), Stage::AnnounceStart);
    assert_eq!(table.holder(1), Some(1));
    assert_eq!(table.holder(2), Some(1));
}

#[test]
fn a_released_fork_is_free_at_once_for_the_one_who_waits() {
    let mut table = Table::new(5);
    table.run(&vec![2, 2, 2, 2, 2]);
    assert_eq!(table.stage(2), Stage::ReleaseFirst);
    assert!(table.is_blocked(1));
    assert!(!table.step(1));
    assert_eq!(table.action(2), Action::Release(2));
    assert!(table.step(2));
    assert!(table.is_free(2));
    assert_eq!(table.holder(2), None);
    assert!(!table.is_blocked(1));
    assert!(table.step(1));
    assert_eq!(table.holder(2), Some(1));
    assert_eq!(table.action(2), Action::Release(3));
    assert!(table.step(2));
    assert!(table.is_free(3));
    assert!(table.step(3));
    assert_eq!(table.stage(3), Stage::ClaimSecond);
    assert!(table.step(3));
    assert_eq!(table.holder(3), Some(3));
}

#[test]
fn the_stages_between_the_claims_and_the_releases_touch_no_fork() {
    let mut table = Table::new(3);
    table.run(&vec![0, 0]);
    assert_eq!(table.action(0), Action::Announce(Notice::Eating));
    assert!(table.step(0));
    assert_eq!(table.action(0), Action::Pause(1000));
    assert!(table.step(0));
    assert_eq!(table.action(0), Action::Announce(Notice::Stopped));
    assert!(table.step(0));
    assert_eq!(table.holder(0), Some(0));
    assert_eq!(table.holder(1), Some(0));
    assert_eq!(table.holder(2), None);
    table.run(&vec![0, 0]);
    assert_eq!(table.action(0), Action::Pause(1000));
    assert!(table.step(0));
    assert_eq!(table.stage(0), Stage::ClaimFirst);
    for fork in 0..3 {
        assert!(table.is_free(fork));
    }
}

#[test]
fn a_schedule_runs_turn_by_turn() {
    let schedule = vec![0, 1, 2, 3, 4, 0, 1, 2, 3, 4, 0, 2, 4];
    let mut whole = Table::new(5);
    whole.run(&schedule);
    let mut stepwise = Table::new(5);
    for seat in &schedule {
        stepwise.step(*seat);
    }
    for seat in 0..5 {
        assert_eq!(whole.stage(seat), stepwise.stage(seat));
        assert_eq!(whole.is_free(seat), stepwise.is_free(seat));
    }
    assert_eq!(whole.stage(0), Stage::Work);
    assert_eq!(whole.stage(1), Stage::ClaimSecond);
    assert_eq!(whole.stage(2), Stage::ClaimFirst);
    assert_eq!(whole.stage(3), Stage::AnnounceStart);
    assert_eq!(whole.stage(4), Stage::ClaimFirst);
    assert_eq!(whole.holder(0), Some(0));
    assert_eq!(whole.holder(1), Some(0));
    assert_eq!(whole.holder(2), Some(1));
    assert_eq!(whole.holder(3), Some(3));
    assert_eq!(whole.holder(4), Some(3));
}

#[test]
fn a_turn_for_a_seat_that_does_not_exist_changes_nothing() {
    let mut table = Table::new(3);
    table.run(&vec![7, 0, 3, 99]);
    assert_eq!(table.stage(0), Stage::ClaimSecond);
    assert_eq!(table.stage(1), Stage::ClaimFirst);
    assert_eq!(table.stage(2), Stage::ClaimFirst);
    assert_eq!(table.holder(0), Some(0));
    assert!(table.is_free(1));
    assert!(table.is_free(2));
}

#[test]
fn an_empty_schedule_changes_nothing() {
    let mut table = Table::new(2);
    table.run(&Vec::new());
    assert_eq!(table.stage(0), Stage::ClaimFirst);
    assert_eq!(table.stage(1), Stage::ClaimFirst);
    assert!(table.is_free(0) && table.is_free(1));
}

#[test]
fn the_first_movable_diner_is_the_lowest_one_not_blocked() {
    let mut table = Table::new(4);
    table.run(&vec![1]);
    assert_eq!(table.holder(2), Some(1));
    assert_eq!(table.first_movable(), 0);
    table.run(&vec![3]);
    assert_eq!(table.holder(0), Some(3));
    assert!(table.is_blocked(0));
    assert!(!table.is_blocked(1));
    assert_eq!(table.first_movable(), 1);
    table.run(&vec![1, 3]);
    assert_eq!(table.stage(1), Stage::AnnounceStart);
    assert_eq!(table.stage(3), Stage::AnnounceStart);
    assert!(table.is_blocked(0));
    assert!(table.is_blocked(2));
    assert_eq!(table.first_movable(), 1);
}

#[test]
fn a_copy_of_a_table_moves_on_its_own() {
    let mut table = Table::new(3);
    table.step(0);
    let mut copy = table.clone();
    copy.step(0);
    assert_eq!(table.stage(0), Stage::ClaimSecond);
    assert_eq!(copy.stage(0), Stage::AnnounceStart);
    assert!(table.is_free(1));
    assert!(!copy.is_free(1));
}

#[test]
fn a_round_gives_every_diner_one_turn_in_the_order_of_the_seats() {
    let mut round = Table::new(5);
    let mut turns = Table::new(5);
    for _ in 0..40 {
        round.round();
        turns.run(&vec![0, 1, 2, 3, 4]);
        for seat in 0..5 {
            assert_eq!(round.stage(seat), turns.stage(seat));
            assert_eq!(round.is_free(seat), turns.is_free(seat));
        }
    }
}

#[test]
fn the_first_round_feeds_the_diners_who_reach_their_forks_first() {
    let mut table = Table::new(5);
    table.round();
    assert_eq!(table.stage(0), Stage::ClaimSecond);
    assert_eq!(table.stage(1), Stage::ClaimSecond);
    assert_eq!(table.stage(2), Stage::ClaimFirst);
    assert_eq!(table.stage(3), Stage::ClaimSecond);
    assert_eq!(table.stage(4), Stage::ClaimFirst);
    table.round();
    assert_eq!(table.stage(0), Stage::AnnounceStart);
    assert_eq!(table.stage(1), Stage::ClaimSecond);
    assert_eq!(table.stage(2), Stage::ClaimFirst);
    assert_eq!(table.stage(3), Stage::AnnounceStart);
    assert_eq!(table.stage(4), Stage::ClaimFirst);
}
