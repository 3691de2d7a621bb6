//! The running totals the society keeps per cycle for its scoreboard.
use crate::kinds::PerGood;
use crate::money::Money;
use vstd::prelude::*;

verus! {

/// A citizen's running totals for the current cycle.
#[derive(Clone, Copy, Debug, PartialEq, Eq)]
pub struct CitizenCycle {
    pub ticks: u32,
    pub food_eaten: u32,
    pub wares_consumed: u32,
    pub housed_ticks: u32,
    /// Sum over ticks of (Food + Shelter + Comfort) / 3, in tenths of a point.
    pub wellbeing_tenths: u64,
    /// Whether Food or Shelter fell below the hardship threshold at any tick.
    pub needs_breached: bool,
}

/// The society's running totals for the current cycle.
#[derive(Clone, Copy, Debug, PartialEq, Eq)]
pub struct WorldCycle {
    pub produced: PerGood<u64>,
    pub dwellings_built: u64,
    /// Materials consumed by Machine Shops this cycle.
    pub materials_to_machines: u64,
    /// Units requested from the state store this cycle and not served.
    pub store_unfilled: u64,
    /// Units issued at zero price by provision this cycle.
    pub rations_issued: u64,
    /// Tax collected and need floor paid this cycle.
    pub tax_collected: Money,
    pub floor_paid: Money,
}

} // verus!
