//! The dining philosophers, verified: a ring of diners who each need the two
//! forks beside them, and who avoid deadlock by the order in which they pick
//! those forks up.
//!
//! - `ring`: which forks lie beside which seat, and which a diner takes first.
//! - `diner`: one diner's cycle, stage by stage.
//! - `forks`: the forks in the hands of a single owner, where every operation
//!   can be stated exactly.
//! - `pool` and `drive`: the forks as threads share them, and a diner taking
//!   its turns at them.
//! - `launch`: how many diners there are and when each starts.
//! - `text`: the lines a diner prints.
//! - `model` and `table`: the whole table as a state machine, in
//!   specifications and as a value that can be run.
//! - `laws`, `progress`, `rounds` and `fairness`: what is proved of the state
//!   machine: no fork is ever in two hands, some diner can always move, a
//!   fork put back is free at once, every diner can always be brought to its
//!   meal, and under fair turns every diner is, again and again.

pub mod diner;
pub mod drive;
pub mod fairness;
pub mod forks;
pub mod launch;
pub mod laws;
pub mod model;
pub mod pool;
pub mod progress;
pub mod ring;
pub mod rounds;
pub mod table;
pub mod text;
