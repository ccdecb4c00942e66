//! Building, repairing and upgrading: the tasks that fabricators are handed, how a
//! fabricator is matched to one, and what a fabricator does next.
pub mod coordinator;
pub mod state;
