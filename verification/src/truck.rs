//! Hauling energy: the tasks that trucks are handed (stops that provide energy and
//! stops that take it), how trucks are matched to them, and what a truck does next.
pub mod builders;
pub mod coordinator;
pub mod state;
pub mod import;
