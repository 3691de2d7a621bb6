//! The eight axes and the immutable per-epoch `Constitution`. Every setting
//! is a concrete engine rule, never a slider on a vibe.
use crate::kinds::{Channel, ContractKind, OrgKind};
use vstd::prelude::*;

verus! {

/// A1 — ownership of means of production.
#[derive(Clone, Copy, Debug, PartialEq, Eq, Structural)]
pub enum Ownership {
    Private,
    Cooperative,
    Collective,
}

/// A2 — price formation. `NoPricing` is the moneyless setting.
#[derive(Clone, Copy, Debug, PartialEq, Eq, Structural)]
pub enum Pricing {
    Market,
    Administered,
    NoPricing,
}

/// A3 — compensation.
#[derive(Clone, Copy, Debug, PartialEq, Eq, Structural)]
pub enum Compensation {
    Contract,
    Scale,
    Share,
    Need,
}

/// A4 — labor allocation.
#[derive(Clone, Copy, Debug, PartialEq, Eq, Structural)]
pub enum LaborMode {
    Free,
    Assigned,
    Norm,
}

/// A5 — capital markets.
#[derive(Clone, Copy, Debug, PartialEq, Eq, Structural)]
pub enum CapitalMode {
    Open,
    PublicBank,
    NoCapitalMarket,
}

/// A6 — redistribution.
#[derive(Clone, Copy, Debug, PartialEq, Eq, Structural)]
pub enum Redistribution {
    NoRedistribution,
    TaxTransfer,
    Provision,
    Total,
}

/// A7 — monitoring intensity.
#[derive(Clone, Copy, Debug, PartialEq, Eq, Structural)]
pub enum Monitoring {
    High,
    Medium,
    Low,
}

/// A8 — economic governance.
#[derive(Clone, Copy, Debug, PartialEq, Eq, Structural)]
pub enum Governance {
    NoGovernance,
    Direct,
    Representative,
    Committee,
}

/// Office kinds.
#[derive(Clone, Copy, Debug, PartialEq, Eq, Structural)]
pub enum OfficeKind {
    Coordinator,
    PlanningCommittee,
    Legislator,
    UnionSteward,
    BankBoard,
}

/// Recall threshold for an office.
#[derive(Clone, Copy, Debug, PartialEq, Eq, Structural)]
pub enum RecallRule {
    Majority,
    TwoThirds,
}

/// An elected office as the constitution defines it.
#[derive(Clone, Copy, Debug, PartialEq, Eq, Structural)]
pub struct OfficeSpec {
    pub kind: OfficeKind,
    pub seats: u32,
    pub term_cycles: u32,
    /// Whether a holder may serve consecutive terms.
    pub consecutive: bool,
    pub recall: RecallRule,
}

/// The kinds of proposal a constitution enables.
#[derive(Clone, Copy, Debug, PartialEq, Eq, Structural)]
pub enum ProposalKindTag {
    /// A cooperative's members admit a candidate.
    Admission,
    /// A patch to the society's policy.
    PolicyChange,
    /// Free text, recorded as the assembly's minutes.
    Resolution,
    Election,
    Recall,
    Honor,
    Disbursement,
}

/// Who may open a proposal.
#[derive(Clone, Copy, Debug, PartialEq, Eq, Structural)]
pub enum Proposers {
    Anyone,
    OfficeHolders,
}

/// The society's constitution: immutable for an epoch. The sets are lists
/// without repeats.
#[derive(Clone, Debug)]
pub struct Constitution {
    pub ownership: Ownership,
    pub pricing: Pricing,
    pub compensation: Compensation,
    pub labor: LaborMode,
    pub capital: CapitalMode,
    pub redistribution: Redistribution,
    pub monitoring: Monitoring,
    pub governance: Governance,
    pub contracts: Vec<ContractKind>,
    pub org_kinds: Vec<OrgKind>,
    pub communication: Vec<Channel>,
    pub offices: Vec<OfficeSpec>,
    pub proposal_kinds: Vec<ProposalKindTag>,
    pub proposers: Proposers,
}

impl Constitution {
    /// Money exists unless pricing is `none`.
    pub open spec fn spec_has_money(&self) -> bool {
        self.pricing != Pricing::NoPricing
    }

    /// Money exists unless pricing is `none`.
    pub fn has_money(&self) -> (b: bool)
        ensures
            b == self.spec_has_money(),
    {
        !matches!(self.pricing, Pricing::NoPricing)
    }

    /// Whether the constitution enables contracts of `kind`.
    pub fn enables_contract(&self, kind: ContractKind) -> (b: bool)
        ensures
            b == self.contracts@.contains(kind),
    {
        let mut i: usize = 0;
        while i < self.contracts.len()
            invariant
                i <= self.contracts.len(),
                forall|k: int| 0 <= k < i ==> self.contracts@[k] != kind,
            decreases self.contracts.len() - i,
        {
            if self.contracts[i] == kind {
                return true;
            }
            i = i + 1;
        }
        false
    }
}

} // verus!
