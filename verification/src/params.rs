//! `Params`: the society's tunable constants. The engine logic in this crate
//! reads the integer settings gathered here; the settings that are real
//! numbers (rates, multipliers, curve coefficients) belong to the float-valued
//! model of production and needs and are not part of these tables.
use crate::kinds::{PerGood, WorkplaceKind};
use crate::money::Money;
use vstd::prelude::*;

verus! {

/// A value per workplace kind.
#[derive(Clone, Copy, Debug, PartialEq, Eq)]
pub struct PerKind<T> {
    pub farm: T,
    pub mine: T,
    pub foundry: T,
    pub mill: T,
    pub workshop: T,
    pub machine_shop: T,
    pub builder: T,
}

impl<T: Copy> PerKind<T> {
    /// The entry of `k`.
    pub open spec fn spec_get(self, k: WorkplaceKind) -> T {
        match k {
            WorkplaceKind::Farm => self.farm,
            WorkplaceKind::Mine => self.mine,
            WorkplaceKind::Foundry => self.foundry,
            WorkplaceKind::Mill => self.mill,
            WorkplaceKind::Workshop => self.workshop,
            WorkplaceKind::MachineShop => self.machine_shop,
            WorkplaceKind::Builder => self.builder,
        }
    }

    /// The entry of `k`.
    pub fn get(&self, k: WorkplaceKind) -> (v: T)
        ensures
            v == self.spec_get(k),
    {
        match k {
            WorkplaceKind::Farm => self.farm,
            WorkplaceKind::Mine => self.mine,
            WorkplaceKind::Foundry => self.foundry,
            WorkplaceKind::Mill => self.mill,
            WorkplaceKind::Workshop => self.workshop,
            WorkplaceKind::MachineShop => self.machine_shop,
            WorkplaceKind::Builder => self.builder,
        }
    }
}

/// Union dues and strike pay.
#[derive(Clone, Copy, Debug, PartialEq, Eq)]
pub struct UnionParams {
    pub dues_per_cycle: Money,
    pub strike_pay_per_cycle: Money,
}

/// The Public Investment Bank's lending terms.
#[derive(Clone, Copy, Debug, PartialEq, Eq)]
pub struct BankParams {
    pub rate_per_cycle_bp: u32,
    pub max_loan: Money,
    pub max_term_cycles: u32,
}

/// How a surplus is split among a cooperative's members.
#[derive(Clone, Copy, Debug, PartialEq, Eq, Structural)]
pub enum ShareRule {
    Equal,
    HoursWeighted,
}

/// Cooperative settings.
#[derive(Clone, Copy, Debug, PartialEq, Eq)]
pub struct CoopParams {
    pub default_share_rule: ShareRule,
    pub max_machines_per_member: u32,
}

/// The stock each seeded workplace kind starts with.
#[derive(Clone, Copy, Debug, PartialEq, Eq)]
pub struct SeedingParams {
    pub legacy_inventory: PerKind<PerGood<u32>>,
}

/// Time.
#[derive(Clone, Copy, Debug, PartialEq, Eq)]
pub struct TimeParams {
    pub ticks_per_cycle: u32,
    pub epoch_cycles: u32,
    pub tick_seconds: u64,
    pub closing_window_minutes: u32,
}

/// Founding an org.
#[derive(Clone, Copy, Debug, PartialEq, Eq)]
pub struct FoundingParams {
    pub materials: u32,
    pub initial_shares: u32,
}

/// Money settings, in cents.
#[derive(Clone, Copy, Debug, PartialEq, Eq)]
pub struct MoneyParams {
    pub endowment: Money,
    pub founding_cost_money: Money,
    pub legacy_wage: Money,
    pub legacy_rent: Money,
    pub legacy_treasury: Money,
    /// The start price of each good, where it has one.
    pub start_prices: PerGood<Option<Money>>,
}

/// Order-book settings.
#[derive(Clone, Copy, Debug, PartialEq, Eq)]
pub struct MarketParams {
    pub order_expiry_cycles: u32,
    pub rate_limit: RateLimit,
}

/// Command rate limits.
#[derive(Clone, Copy, Debug, PartialEq, Eq)]
pub struct RateLimit {
    pub per_second: u32,
    pub burst: u32,
}

/// Contract settings.
#[derive(Clone, Copy, Debug, PartialEq, Eq)]
pub struct ContractParams {
    pub lease_grace_cycles: u32,
    pub long_contract_cycles: u32,
}

/// The integer labor settings.
#[derive(Clone, Copy, Debug, PartialEq, Eq)]
pub struct LaborParams {
    pub base_budget_hours: u8,
    /// Relative staffing weights per workplace kind for the rule that places
    /// a citizen where labor is scarcest.
    pub balance_weights: PerKind<u32>,
    pub skill_band: u8,
    pub max_workplaces: u8,
    pub max_workers_per_workplace: u32,
    /// High effort beyond this many cycles in a row costs fatigue hours.
    pub high_effort_debt_after_cycles: u8,
    pub high_effort_debt_hours: u8,
    /// Hours a cycle of hardship costs the next cycle.
    pub hardship_debt_hours: u8,
    pub fatigue_debt_cap_hours: u8,
}

/// The integer needs settings, in meter points.
#[derive(Clone, Copy, Debug, PartialEq, Eq)]
pub struct NeedsParams {
    pub food_meter_per_unit: u8,
    pub comfort_per_wares: u8,
    /// Cycles of hardship in a row that make a citizen destitute.
    pub destitution_hardship_cycles: u8,
    pub meter_start: u8,
}

/// The integer householder settings.
#[derive(Clone, Copy, Debug, PartialEq, Eq)]
pub struct HouseholderParams {
    pub keep_food_at_least: u32,
    pub wares_comfort_below: u8,
    pub legacy_hire_inventory_cycles_cap: u32,
    pub living_cost_food: u32,
    pub living_cost_wares: u32,
}

/// The integer population settings.
#[derive(Clone, Copy, Debug, PartialEq, Eq)]
pub struct PopulationParams {
    pub floor: u32,
    pub cap: u32,
    pub dormancy_absent_cycles: u32,
    pub office_vacancy_absent_cycles: u32,
}

/// The integer governance settings.
#[derive(Clone, Copy, Debug, PartialEq, Eq)]
pub struct GovernanceParams {
    pub open_proposals_per_citizen: u32,
    pub unfilled_office_headline_cycles: u32,
}

/// Every integer setting a society runs on.
#[derive(Clone, Copy, Debug, PartialEq, Eq)]
pub struct Params {
    pub time: TimeParams,
    pub labor: LaborParams,
    pub needs: NeedsParams,
    /// The pantry cap of each good, where it has one.
    pub pantry: PerGood<Option<u32>>,
    /// Slots per slot-limited workplace kind; `None` is unlimited.
    pub land: PerKind<Option<u32>>,
    pub founding: FoundingParams,
    pub money: MoneyParams,
    pub market: MarketParams,
    pub population: PopulationParams,
    pub householder: HouseholderParams,
    pub contracts: ContractParams,
    pub governance: GovernanceParams,
    pub seeded_workplaces: PerKind<u32>,
    pub initial_dwellings: u32,
    pub seeding: SeedingParams,
    pub coop: CoopParams,
    pub bank: BankParams,
    pub union: UnionParams,
}

} // verus!
