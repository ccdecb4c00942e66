//! Decision logic of a colony-managing bot for Screeps: the steps a colony goes
//! through, the bookkeeping that hands tasks and resources to creeps, and the
//! accounting of a creep's intents within one tick.
pub mod callbacks;
pub mod center;
pub mod center_site;
pub mod check;
pub mod claimer;
pub mod colony;
pub mod colony_data;
pub mod commands;
pub mod creep_roles;
pub mod connectivity;
pub mod coordination;
pub mod excavator;
pub mod fabricator;
pub mod harvester;
pub mod flagship;
pub mod floodfill;
pub mod keyed;
pub mod movement;
pub mod plan_diff;
pub mod plan_refs;
pub mod planner;
pub mod planning_steps;
pub mod position;
pub mod remote_builder;
pub mod sources;
pub mod steps;
pub mod truck;
pub mod tug;
pub mod virtual_creep;
pub mod worker;
