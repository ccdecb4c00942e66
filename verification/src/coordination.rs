//! The bookkeeping that hands out work and resources to creeps, entry by entry,
//! with entries that expire unless their creep keeps them alive.
pub mod allocations;
pub mod assignment;
pub mod collaboration;
pub mod expiring_map;
pub mod tasks;
pub mod workers;
