//! Calendar planner core: a validated date model, calendar arithmetic, the
//! appointment store, the month/week/year grid builder and the navigation and
//! dialog state machine.

pub mod date;
pub mod text;
pub mod appointment;
pub mod grid;
pub mod calendar;
