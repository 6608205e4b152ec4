//! The geometry of the table: which forks lie beside which seat, and in which
//! order the diner at a seat picks them up.
//!
//! Seats and forks alternate round a ring. Seat `i` has fork `i` at its own
//! position and fork `i + 1` (wrapping to 0 after the last) at the next one.
//! Diners at even seats reach for their own fork first, diners at odd seats
//! for the next one, so that neighbours mirror each other at the fork they
//! share.

use vstd::prelude::*;

verus! {

/// The smallest ring: two diners sharing two forks.
pub const MIN_SEATS: usize = 2;

/// A ring is valid from two seats upwards.
pub open spec fn valid_ring(seats: int) -> bool {
    seats >= MIN_SEATS
}

/// The position after `seat` round the ring.
pub open spec fn spec_next_fork(seat: int, seats: int) -> int {
    if seat + 1 == seats {
        0
    } else {
        seat + 1
    }
}

/// The seat before the position of `fork` round the ring: the second of the
/// two diners who share that fork.
pub open spec fn spec_prev_seat(fork: int, seats: int) -> int {
    if fork == 0 {
        seats - 1
    } else {
        fork - 1
    }
}

/// The other of the two diners who share `fork`, as seen from `seat`.
pub open spec fn spec_other_diner(fork: int, seat: int, seats: int) -> int {
    if seat == fork {
        spec_prev_seat(fork, seats)
    } else {
        fork
    }
}

/// Whether `fork` is one of the two forks beside `seat`.
pub open spec fn beside(seat: int, fork: int, seats: int) -> bool {
    fork == seat || fork == spec_next_fork(seat, seats)
}

/// Whether the diner at `seat` starts with the fork at its own position.
pub open spec fn starts_with_own(seat: int) -> bool {
    seat % 2 == 0
}

/// The fork a diner picks up first: its own for an even seat, the next one
/// round the ring for an odd seat.
pub open spec fn spec_first_fork(seat: int, seats: int) -> int {
    if starts_with_own(seat) {
        seat
    } else {
        spec_next_fork(seat, seats)
    }
}

/// The fork a diner picks up second: the other of its two.
pub open spec fn spec_second_fork(seat: int, seats: int) -> int {
    if starts_with_own(seat) {
        spec_next_fork(seat, seats)
    } else {
        seat
    }
}

/// The next position round the ring is the successor modulo the ring's size.
pub proof fn lemma_next_fork_is_modular(seat: int, seats: int)
    requires
        0 <= seat < seats,
    ensures
        spec_next_fork(seat, seats) == (seat + 1) % seats,
        0 <= spec_next_fork(seat, seats) < seats,
{
    if seat + 1 == seats {
        assert((seat + 1) % seats == 0) by (nonlinear_arith)
            requires
                seat + 1 == seats,
                seats > 0,
        ;
    } else {
        assert((seat + 1) % seats == seat + 1) by (nonlinear_arith)
            requires
                0 <= seat + 1 < seats,
        ;
    }
}

/// Each diner has exactly two forks, its first and its second, and in a valid
/// ring they are different forks.
pub proof fn lemma_diner_has_two_forks(seat: int, seats: int)
    requires
        valid_ring(seats),
        0 <= seat < seats,
    ensures
        spec_first_fork(seat, seats) != spec_second_fork(seat, seats),
        0 <= spec_first_fork(seat, seats) < seats,
        0 <= spec_second_fork(seat, seats) < seats,
        forall|fork: int|
            beside(seat, fork, seats) <==> (fork == spec_first_fork(seat, seats) || fork
                == spec_second_fork(seat, seats)),
{
}

/// Each fork is shared by exactly two diners: the one at its own position and
/// the one at the seat before, and in a valid ring they are different diners.
pub proof fn lemma_fork_has_two_diners(fork: int, seats: int)
    requires
        valid_ring(seats),
        0 <= fork < seats,
    ensures
        0 <= spec_prev_seat(fork, seats) < seats,
        spec_prev_seat(fork, seats) != fork,
        spec_next_fork(spec_prev_seat(fork, seats), seats) == fork,
        forall|seat: int|
            0 <= seat < seats ==> (beside(seat, fork, seats) <==> (seat == fork || seat
                == spec_prev_seat(fork, seats))),
{
}

/// The fork at the next position round the ring from `seat`.
pub fn next_fork(seat: usize, seats: usize) -> (fork: usize)
    requires
        seat < seats,
    ensures
        fork == spec_next_fork(seat as int, seats as int),
        fork < seats,
{
    if seat + 1 == seats {
        0
    } else {
        seat + 1
    }
}

/// The fork that the diner at `seat` picks up first.
pub fn first_fork(seat: usize, seats: usize) -> (fork: usize)
    requires
        seat < seats,
    ensures
        fork == spec_first_fork(seat as int, seats as int),
        fork < seats,
{
    if seat % 2 == 0 {
        seat
    } else {
        next_fork(seat, seats)
    }
}

/// The fork that the diner at `seat` picks up second.
pub fn second_fork(seat: usize, seats: usize) -> (fork: usize)
    requires
        seat < seats,
    ensures
        fork == spec_second_fork(seat as int, seats as int),
        fork < seats,
{
    if seat % 2 == 0 {
        next_fork(seat, seats)
    } else {
        seat
    }
}

} // verus!
