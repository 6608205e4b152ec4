//! Setting the table: how many diners there are, who sits where, and when
//! each of them starts.

use vstd::prelude::*;
use crate::diner::{Philosopher, Stage};
use crate::ring::valid_ring;

verus! {

/// The number of diners, and of forks.
pub const SEATS: usize = 5;

/// The time between the starts of two diners, in milliseconds.
pub const STAGGER_MILLIS: u64 = 200;

/// The time after which the diner at `seat` starts: the diners start one
/// after another, a stagger apart, the first of them one stagger after the
/// launch.
pub open spec fn spec_start_millis(seat: int) -> int {
    (seat + 1) * STAGGER_MILLIS
}

/// The time in milliseconds after which the diner at `seat` starts.
pub fn start_millis(seat: usize) -> (millis: u64)
    requires
        spec_start_millis(seat as int) <= u64::MAX,
    ensures
        millis == spec_start_millis(seat as int),
{
    (seat as u64 + 1) * STAGGER_MILLIS
}

/// Seats one hungry diner at each seat of a ring of `seats`, in the order of
/// the seats.
pub fn seat_diners(seats: usize) -> (diners: Vec<Philosopher>)
    requires
        valid_ring(seats as int),
    ensures
        diners@.len() == seats,
        forall|seat: int|
            0 <= seat < seats ==> {
                &&& (#[trigger] diners@[seat]).wf()
                &&& diners@[seat].spec_seat() == seat
                &&& diners@[seat].spec_seats() == seats
                &&& diners@[seat].spec_stage() == Stage::ClaimFirst
            },
{
    let mut diners: Vec<Philosopher> = Vec::new();
    let mut seat: usize = 0;
    while seat < seats
        invariant
            valid_ring(seats as int),
            seat <= seats,
            diners@.len() == seat,
            forall|seated: int|
                0 <= seated < seat ==> {
                    &&& (#[trigger] diners@[seated]).wf()
                    &&& diners@[seated].spec_seat() == seated
                    &&& diners@[seated].spec_seats() == seats
                    &&& diners@[seated].spec_stage() == Stage::ClaimFirst
                },
        decreases seats - seat,
    {
        diners.push(Philosopher::new(seat, seats));
        seat += 1;
    }
    diners
}

} // verus!
