//! What the constitution enables, derived once per epoch from the
//! constitution, the policy (for the monitoring override) and the params (for
//! the published land slots and rate limit). Commands are gated on it before
//! any other check. The attribution noise that goes with the monitoring level
//! is real-valued and is not held here.
use crate::constitution::{
    CapitalMode, Compensation, Constitution, Governance, LaborMode, Monitoring, OfficeSpec, Pricing, ProposalKindTag,
    Proposers, Redistribution,
};
use crate::kinds::{ContractKind, OrgKind};
use crate::params::{Params, PerKind, RateLimit};
use crate::policy::{MonitoringPolicy, Policy};
use vstd::prelude::*;

verus! {

/// The capabilities of a society. The sets are lists as the constitution
/// gives them.
#[derive(Clone, Debug)]
pub struct Capabilities {
    /// The society has money.
    pub money: bool,
    /// Prices are made on order books.
    pub order_books: bool,
    /// Prices are set by the plan.
    pub administered_prices: bool,
    /// There are no prices: goods come from the Common Store.
    pub common_store: bool,
    pub contracts: Vec<ContractKind>,
    pub org_kinds: Vec<OrgKind>,
    pub labor: LaborMode,
    pub pay: Compensation,
    pub capital: CapitalMode,
    pub redistribution: Redistribution,
    /// Monitoring as the policy overrides it.
    pub monitoring: Monitoring,
    pub governance: Governance,
    /// The proposal kinds the society may open.
    pub proposal_kinds: Vec<ProposalKindTag>,
    pub proposers: Proposers,
    pub offices: Vec<OfficeSpec>,
    /// Slots per workplace kind; `None` is unlimited.
    pub land_slots: PerKind<Option<u32>>,
    /// Published so the society's command ceiling is public.
    pub rate_limit: RateLimit,
}

/// Monitoring as the policy overrides the constitution's.
pub open spec fn monitoring_of(constitution: Monitoring, policy: MonitoringPolicy) -> Monitoring {
    match policy {
        MonitoringPolicy::Inherit => constitution,
        MonitoringPolicy::High => Monitoring::High,
        MonitoringPolicy::Medium => Monitoring::Medium,
        MonitoringPolicy::Low => Monitoring::Low,
    }
}

/// What the constitution, policy and params enable.
pub open spec fn derived(c: Constitution, p: Policy, params: Params, caps: Capabilities) -> bool {
    &&& caps.money == c.spec_has_money()
    &&& caps.order_books == (c.pricing == Pricing::Market)
    &&& caps.administered_prices == (c.pricing == Pricing::Administered)
    &&& caps.common_store == (c.pricing == Pricing::NoPricing)
    &&& caps.contracts@ == c.contracts@
    &&& caps.org_kinds@ == c.org_kinds@
    &&& caps.labor == c.labor
    &&& caps.pay == c.compensation
    &&& caps.capital == c.capital
    &&& caps.redistribution == c.redistribution
    &&& caps.monitoring == monitoring_of(c.monitoring, p.monitoring)
    &&& caps.governance == c.governance
    &&& caps.proposal_kinds@ == c.proposal_kinds@
    &&& caps.proposers == c.proposers
    &&& caps.offices@ == c.offices@
    &&& caps.land_slots == params.land
    &&& caps.rate_limit == params.market.rate_limit
}

/// A copy of a list of contract kinds.
fn copy_contract_kinds(v: &Vec<ContractKind>) -> (r: Vec<ContractKind>)
    ensures
        r@ == v@,
{
    let mut r: Vec<ContractKind> = Vec::new();
    let mut i: usize = 0;
    while i < v.len()
        invariant
            i <= v@.len(),
            r@ == v@.take(i as int),
        decreases v@.len() - i,
    {
        r.push(v[i]);
        proof {
            assert(v@.take(i + 1) =~= v@.take(i as int).push(v@[i as int]));
        }
        i = i + 1;
    }
    proof {
        assert(v@.take(v@.len() as int) =~= v@);
    }
    r
}

/// A copy of a list of org kinds.
fn copy_org_kinds(v: &Vec<OrgKind>) -> (r: Vec<OrgKind>)
    ensures
        r@ == v@,
{
    let mut r: Vec<OrgKind> = Vec::new();
    let mut i: usize = 0;
    while i < v.len()
        invariant
            i <= v@.len(),
            r@ == v@.take(i as int),
        decreases v@.len() - i,
    {
        r.push(v[i]);
        proof {
            assert(v@.take(i + 1) =~= v@.take(i as int).push(v@[i as int]));
        }
        i = i + 1;
    }
    proof {
        assert(v@.take(v@.len() as int) =~= v@);
    }
    r
}

/// A copy of a list of proposal kinds.
fn copy_proposal_kinds(v: &Vec<ProposalKindTag>) -> (r: Vec<ProposalKindTag>)
    ensures
        r@ == v@,
{
    let mut r: Vec<ProposalKindTag> = Vec::new();
    let mut i: usize = 0;
    while i < v.len()
        invariant
            i <= v@.len(),
            r@ == v@.take(i as int),
        decreases v@.len() - i,
    {
        r.push(v[i]);
        proof {
            assert(v@.take(i + 1) =~= v@.take(i as int).push(v@[i as int]));
        }
        i = i + 1;
    }
    proof {
        assert(v@.take(v@.len() as int) =~= v@);
    }
    r
}

/// A copy of a list of offices.
fn copy_offices(v: &Vec<OfficeSpec>) -> (r: Vec<OfficeSpec>)
    ensures
        r@ == v@,
{
    let mut r: Vec<OfficeSpec> = Vec::new();
    let mut i: usize = 0;
    while i < v.len()
        invariant
            i <= v@.len(),
            r@ == v@.take(i as int),
        decreases v@.len() - i,
    {
        r.push(v[i]);
        proof {
            assert(v@.take(i + 1) =~= v@.take(i as int).push(v@[i as int]));
        }
        i = i + 1;
    }
    proof {
        assert(v@.take(v@.len() as int) =~= v@);
    }
    r
}

impl Capabilities {
    /// What a constitution enables, with the policy's monitoring override and
    /// the params' land slots and rate limit.
    pub fn derive(constitution: &Constitution, policy: &Policy, params: &Params) -> (caps: Capabilities)
        ensures
            derived(*constitution, *policy, *params, caps),
    {
        let monitoring = match policy.monitoring {
            MonitoringPolicy::Inherit => constitution.monitoring,
            MonitoringPolicy::High => Monitoring::High,
            MonitoringPolicy::Medium => Monitoring::Medium,
            MonitoringPolicy::Low => Monitoring::Low,
        };
        Capabilities {
            money: constitution.has_money(),
            order_books: constitution.pricing == Pricing::Market,
            administered_prices: constitution.pricing == Pricing::Administered,
            common_store: constitution.pricing == Pricing::NoPricing,
            contracts: copy_contract_kinds(&constitution.contracts),
            org_kinds: copy_org_kinds(&constitution.org_kinds),
            labor: constitution.labor,
            pay: constitution.compensation,
            capital: constitution.capital,
            redistribution: constitution.redistribution,
            monitoring,
            governance: constitution.governance,
            proposal_kinds: copy_proposal_kinds(&constitution.proposal_kinds),
            proposers: constitution.proposers,
            offices: copy_offices(&constitution.offices),
            land_slots: params.land,
            rate_limit: params.market.rate_limit,
        }
    }

    /// Whether the constitution enables a contract kind.
    pub fn allows_contract(&self, kind: ContractKind) -> (b: bool)
        ensures
            b == self.contracts@.contains(kind),
    {
        let mut i: usize = 0;
        while i < self.contracts.len()
            invariant
                i <= self.contracts@.len(),
                forall|k: int| 0 <= k < i ==> self.contracts@[k] != kind,
            decreases self.contracts@.len() - i,
        {
            if self.contracts[i] == kind {
                return true;
            }
            i = i + 1;
        }
        false
    }

    /// Whether the constitution enables an org kind.
    pub fn allows_org(&self, kind: OrgKind) -> (b: bool)
        ensures
            b == self.org_kinds@.contains(kind),
    {
        let mut i: usize = 0;
        while i < self.org_kinds.len()
            invariant
                i <= self.org_kinds@.len(),
                forall|k: int| 0 <= k < i ==> self.org_kinds@[k] != kind,
            decreases self.org_kinds@.len() - i,
        {
            if self.org_kinds[i] == kind {
                return true;
            }
            i = i + 1;
        }
        false
    }

    /// Whether the constitution enables a proposal kind.
    pub fn allows_proposal(&self, kind: ProposalKindTag) -> (b: bool)
        ensures
            b == self.proposal_kinds@.contains(kind),
    {
        let mut i: usize = 0;
        while i < self.proposal_kinds.len()
            invariant
                i <= self.proposal_kinds@.len(),
                forall|k: int| 0 <= k < i ==> self.proposal_kinds@[k] != kind,
            decreases self.proposal_kinds@.len() - i,
        {
            if self.proposal_kinds[i] == kind {
                return true;
            }
            i = i + 1;
        }
        false
    }

    /// Whether the constitution defines an office of this kind.
    pub fn has_office(&self, kind: crate::constitution::OfficeKind) -> (b: bool)
        ensures
            b == exists|k: int| 0 <= k < self.offices@.len() && (#[trigger] self.offices@[k]).kind == kind,
    {
        let mut i: usize = 0;
        while i < self.offices.len()
            invariant
                i <= self.offices@.len(),
                forall|k: int| 0 <= k < i ==> (#[trigger] self.offices@[k]).kind != kind,
            decreases self.offices@.len() - i,
        {
            if self.offices[i].kind == kind {
                return true;
            }
            i = i + 1;
        }
        false
    }
}

/// The rules a society plays by this epoch: its capabilities.
#[derive(Clone, Debug)]
pub struct Rules {
    pub capabilities: Capabilities,
}

impl Rules {
    /// The rules of a world, from its constitution, policy and params.
    pub fn from_world(world: &crate::world::World) -> (r: Rules)
        ensures
            derived(world.constitution, world.policy, world.params, r.capabilities),
    {
        Rules { capabilities: Capabilities::derive(&world.constitution, &world.policy, &world.params) }
    }
}

} // verus!
