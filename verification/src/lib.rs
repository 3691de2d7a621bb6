//! The deterministic, event-sourced economy engine of a society simulation.
use vstd::prelude::*;

pub mod amount;
pub mod api;
pub mod apply;
pub mod bank;
pub mod capabilities;
pub mod command;
pub mod config;
pub mod conservation;
pub mod constitution;
pub mod coop;
pub mod credit;
pub mod employment;
pub mod event;
pub mod explain;
pub mod governance;
pub mod householder;
pub mod housing;
pub mod ids;
pub mod kinds;
pub mod labor;
pub mod ledger;
pub mod market;
pub mod message;
pub mod metrics;
pub mod money;
pub mod needs;
pub mod norms;
pub mod orgs;
pub mod params;
pub mod plan;
pub mod planner;
pub mod policy;
pub mod seeding;
pub mod shares;
pub mod state_store;
pub mod store;
pub mod sum;
pub mod table;
pub mod tax;
pub mod tick;
pub mod world;

verus! {
} // verus!
