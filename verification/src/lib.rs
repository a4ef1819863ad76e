//! A minute-by-minute simulation of buses that pick up and drop off
//! passengers along planned routes.
//!
//! The library holds the calendar and clock arithmetic, the timetables, the
//! passenger bookkeeping of every stop, the queue of a day's stops, the
//! state of a running simulation and the text forms of its logs. How
//! attractive a station is to passengers is a weight of a type parameter
//! `W` that the library carries and never computes on.

pub mod bus_ai;
pub mod dane_out;
pub mod export_logs_mod;
pub mod log_names;
pub mod order;
pub mod passanger_ai;
mod random;
pub mod setup_simulation;
pub mod simplestucts;
pub mod simulation_tick;
pub mod simulsimple;
pub mod text;
