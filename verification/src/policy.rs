//! `Policy`: what a society's own governance may move within its constitution.
//! Each preset sets the fields its system uses; the rest stay `None`. The
//! real-valued policy fields (tax rates, the Materials split, the capital
//! levy, the plan bonus) feed the float-valued parts of the engine and are not
//! held here.
use crate::kinds::PerGood;
use crate::money::Money;
use vstd::prelude::*;

verus! {

/// Monitoring as a policy override.
#[derive(Clone, Copy, Debug, PartialEq, Eq, Structural)]
pub enum MonitoringPolicy {
    Inherit,
    High,
    Medium,
    Low,
}

/// Common Store rationing rule.
#[derive(Clone, Copy, Debug, PartialEq, Eq, Structural)]
pub enum Rationing {
    NeedFirst,
    EqualShortfall,
    Lottery,
}

/// How the Public Investment Bank decides.
#[derive(Clone, Copy, Debug, PartialEq, Eq, Structural)]
pub enum LendingRule {
    Formula,
    Vote,
}

/// The integer policy fields.
#[derive(Clone, Debug)]
pub struct Policy {
    pub monitoring: MonitoringPolicy,
    pub work_norm_hours: Option<u8>,
    pub rationing: Option<Rationing>,
    pub ratchet: Option<bool>,
    /// The published price of each good, where the list carries it.
    pub price_list: Option<PerGood<Option<Money>>>,
    pub wage_grades: Option<Vec<Money>>,
    /// Ration cards: a cap per citizen per cycle on a good, where there is one.
    pub ration_caps: Option<PerGood<Option<u32>>>,
    pub minimum_food_ration: Option<u32>,
    pub need_floor_food: Option<u32>,
    pub minimum_wage: Option<Money>,
    pub public_dwellings: Option<u32>,
    pub public_bank: Option<bool>,
    pub lending_rule: Option<LendingRule>,
}

} // verus!
