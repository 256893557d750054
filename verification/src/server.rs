//! The bookkeeping of the reactor: which peers there are, what an event
//! means for them, and what every tick does to them.

pub mod create;
pub mod logic;
