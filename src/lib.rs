//! Seat assignment engine: places occupants into the slots of a seating
//! layout and improves the placement by local search over pairwise
//! exchanges, minimising a weighted distance cost.

pub mod distance;
pub mod user;
pub mod assignment;
pub mod layout;
pub mod seat;
pub mod placement;
pub mod session;
pub mod api;
