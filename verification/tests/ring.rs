use dining_philosophers::ring::{first_fork, next_fork, second_fork, MIN_SEATS};

#[test]
fn even_seats_start_with_their_own_fork() {
    assert_eq!(first_fork(0, 5), 0);
    assert_eq!(second_fork(0, 5), 1);
    assert_eq!(first_fork(2, 5), 2);
    assert_eq!(second_fork(2, 5), 3);
    assert_eq!(first_fork(4, 5), 4);
    assert_eq!(second_fork(4, 5), 0);
}

#[test]
fn odd_seats_start_with_the_next_fork() {
    assert_eq!(first_fork(1, 5), 2);
    assert_eq!(second_fork(1, 5), 1);
    assert_eq!(first_fork(3, 5), 4);
    assert_eq!(second_fork(3, 5), 3);
}

#[test]
fn next_fork_wraps_round_the_ring() {
    assert_eq!(next_fork(0, 5), 1);
    assert_eq!(next_fork(3, 5), 4);
    assert_eq!(next_fork(4, 5), 0);
    assert_eq!(next_fork(1, 2), 0);
}

#[test]
fn two_diners_share_both_forks_in_the_same_order() {
    assert_eq!(MIN_SEATS, 2);
    assert_eq!(first_fork(0, 2), 0);
    assert_eq!(second_fork(0, 2), 1);
    assert_eq!(first_fork(1, 2), 0);
    assert_eq!(second_fork(1, 2), 1);
}

#[test]
fn every_diner_has_two_different_forks_beside_it() {
    for seats in 2..12usize {
        for seat in 0..seats {
            let first = first_fork(seat, seats);
            let second = second_fork(seat, seats);
            assert_ne!(first, second);
            let own = seat;
            let next = next_fork(seat, seats);
            assert!((first == own && second == next) || (first == next && second == own));
        }
    }
}

#[test]
fn every_fork_is_shared_by_exactly_two_diners() {
    for seats in 2..12usize {
        for fork in 0..seats {
            let mut sharers = 0;
            for seat in 0..seats {
                if first_fork(seat, seats) == fork || second_fork(seat, seats) == fork {
                    sharers += 1;
                }
            }
            assert_eq!(sharers, 2);
        }
    }
}

#[test]
fn some_two_diners_always_share_their_first_fork() {
    for seats in 2..12usize {
        let mut shared = false;
        for one in 0..seats {
            for other in (one + 1)..seats {
                if first_fork(one, seats) == first_fork(other, seats) {
                    shared = true;
                }
            }
        }
        assert!(shared);
    }
}
