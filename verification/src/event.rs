//! The events that change a society. Each records something that happened;
//! `apply` folds it into the `World`.
use crate::config::Preset;
use crate::ids::{CitizenId, ContractId, Cycle, DwellingId, Epoch, OrgId, SlotId, Tick, WorkplaceId};
use crate::kinds::{CitizenKind, ClientKind, Good, GoodCounts, OrgKind, WorkplaceKind};
use crate::ledger::{Asset, Holder, Party};
use crate::money::Money;
use crate::world::{EpochEndReason, Owner, Ownership};
use vstd::prelude::*;

verus! {

/// Who caused a command: the engine, the operator and the sim act as `System`.
#[derive(Clone, Copy, Debug, PartialEq, Eq, Structural)]
pub enum Actor {
    System,
    Citizen(CitizenId),
}

/// Something that happened to a society.
#[derive(Clone, Debug)]
pub enum Event {
    SocietyCreated { society_id: u64, seed: u64, preset: Box<Preset> },
    EpochStarted { epoch: Epoch },
    /// Stock that did not come from production.
    Seeded { holder: Holder, asset: Asset },
    EpochEnded { reason: EpochEndReason, cycle: Cycle },
    CitizenJoined {
        citizen: CitizenId,
        handle: String,
        kind: CitizenKind,
        endowment: Money,
        dwelling: Option<DwellingId>,
    },
    CitizenSeen { citizen: CitizenId, tick: Tick, client_kind: ClientKind },
    CitizenDormant { citizen: CitizenId },
    CitizenReturned { citizen: CitizenId },
    HouseholderJoined { citizen: CitizenId, handle: String, endowment: Money, dwelling: Option<DwellingId> },
    Transferred { from: Party, to: Party, asset: Asset, memo: String },
    OrgFounded {
        org: OrgId,
        kind: OrgKind,
        name: String,
        founder: Option<CitizenId>,
        ownership: Ownership,
        manager: Option<CitizenId>,
        fee_burned: Money,
    },
    WorkplaceAdded {
        workplace: WorkplaceId,
        org: OrgId,
        kind: WorkplaceKind,
        slot: Option<SlotId>,
        materials_consumed: u32,
    },
    ManagerAppointed { org: OrgId, citizen: Option<CitizenId> },
    DividendDeclared { org: OrgId, per_share: Money, cycle: Cycle },
    DividendPaid { org: OrgId, citizen: CitizenId, amount: Money },
    MachinesInstalled { workplace: WorkplaceId, qty: u32 },
    MachinesUninstalled { workplace: WorkplaceId, qty: u32 },
    MachinesDepreciated { workplace: WorkplaceId, qty: u32 },
    DwellingTransferred { dwelling: DwellingId, to: Owner },
    Paid { citizen: CitizenId, org: OrgId, contract: Option<ContractId>, amount: Money },
    Produced { workplace: WorkplaceId, tick: Tick, output: Good, units: u32, inputs_consumed: GoodCounts },
    MemberLeft { org: OrgId, citizen: CitizenId },
    MemberAdmitted { org: OrgId, citizen: CitizenId },
    Assigned { workplace: WorkplaceId, citizen: CitizenId, contract: Option<ContractId> },
    Unassigned { workplace: WorkplaceId, citizen: CitizenId },
    PaymentMissed { citizen: CitizenId, org: OrgId, contract: ContractId, owed: Money, paid: Money },
    EmploymentTerminated { contract: ContractId, by: Party, notice_pay: Money, forfeited: Money },
    RentMissed { contract: ContractId, owed: Money },
    CreditMissed { contract: ContractId, owed: Money },
    CreditRepaid { contract: ContractId },
    CreditDefaulted { contract: ContractId, collateral_seized: Option<crate::world::Collateral> },
    LeaseEnded { contract: ContractId, evicted: bool },
    WantedRemoved { offer: crate::ids::OfferId },
    DwellingOccupied { dwelling: DwellingId, citizen: Option<CitizenId> },
    CycleClosed { cycle: Cycle, low_population_cycles: u32 },
    RentPaid { contract: ContractId, amount: Money },
    CreditInstallment { contract: ContractId, amount: Money, remaining: u32 },
    DwellingBuilt { dwelling: DwellingId, org: OrgId, workplace: Option<WorkplaceId>, materials_consumed: u32 },
    SharesIssued { org: OrgId, qty: u64 },
    WantedPosted { offer: crate::ids::OfferId, by: Party, good: Good, qty: u32, max_price: Money },
    MembershipRequested { offer: crate::ids::OfferId, org: OrgId, citizen: CitizenId },
    LaborSet { citizen: CitizenId, allocations: Vec<crate::world::Allocation> },
    EmploymentOffered { offer: crate::ids::OfferId, body: crate::world::OfferBody },
    ShareRuleSet { org: OrgId, rule: crate::params::ShareRule },
    LeaseAccepted {
        contract: ContractId,
        owner: Party,
        tenant: Party,
        asset: crate::world::LeaseAsset,
        rent_per_cycle: Money,
        term_cycles: Option<u32>,
    },
    EmploymentAccepted {
        contract: ContractId,
        offer: crate::ids::OfferId,
        org: OrgId,
        workplace: WorkplaceId,
        citizen: CitizenId,
        pay: crate::world::Pay,
        max_hours: u8,
        term_cycles: Option<u32>,
        notice_cycles: u32,
    },
    HardshipBegan { citizen: CitizenId, cycle: Cycle },
    HardshipEnded { citizen: CitizenId, cycle: Cycle },
    DestitutionBegan { citizen: CitizenId, cycle: Cycle },
    DestitutionEnded { citizen: CitizenId, cycle: Cycle },
}

impl Event {
    /// The event's kind: its variant's name.
    pub open spec fn spec_kind(&self) -> Seq<char> {
        match self {
            Event::SocietyCreated { .. } => "SocietyCreated"@,
            Event::EpochStarted { .. } => "EpochStarted"@,
            Event::Seeded { .. } => "Seeded"@,
            Event::EpochEnded { .. } => "EpochEnded"@,
            Event::CitizenJoined { .. } => "CitizenJoined"@,
            Event::CitizenSeen { .. } => "CitizenSeen"@,
            Event::CitizenDormant { .. } => "CitizenDormant"@,
            Event::CitizenReturned { .. } => "CitizenReturned"@,
            Event::HouseholderJoined { .. } => "HouseholderJoined"@,
            Event::Transferred { .. } => "Transferred"@,
            Event::OrgFounded { .. } => "OrgFounded"@,
            Event::WorkplaceAdded { .. } => "WorkplaceAdded"@,
            Event::ManagerAppointed { .. } => "ManagerAppointed"@,
            Event::DividendDeclared { .. } => "DividendDeclared"@,
            Event::DividendPaid { .. } => "DividendPaid"@,
            Event::MachinesInstalled { .. } => "MachinesInstalled"@,
            Event::MachinesUninstalled { .. } => "MachinesUninstalled"@,
            Event::MachinesDepreciated { .. } => "MachinesDepreciated"@,
            Event::DwellingTransferred { .. } => "DwellingTransferred"@,
            Event::Paid { .. } => "Paid"@,
            Event::Produced { .. } => "Produced"@,
            Event::MemberLeft { .. } => "MemberLeft"@,
            Event::MemberAdmitted { .. } => "MemberAdmitted"@,
            Event::Assigned { .. } => "Assigned"@,
            Event::Unassigned { .. } => "Unassigned"@,
            Event::PaymentMissed { .. } => "PaymentMissed"@,
            Event::EmploymentTerminated { .. } => "EmploymentTerminated"@,
            Event::RentMissed { .. } => "RentMissed"@,
            Event::CreditMissed { .. } => "CreditMissed"@,
            Event::CreditRepaid { .. } => "CreditRepaid"@,
            Event::CreditDefaulted { .. } => "CreditDefaulted"@,
            Event::LeaseEnded { .. } => "LeaseEnded"@,
            Event::WantedRemoved { .. } => "WantedRemoved"@,
            Event::DwellingOccupied { .. } => "DwellingOccupied"@,
            Event::CycleClosed { .. } => "CycleClosed"@,
            Event::RentPaid { .. } => "RentPaid"@,
            Event::CreditInstallment { .. } => "CreditInstallment"@,
            Event::DwellingBuilt { .. } => "DwellingBuilt"@,
            Event::SharesIssued { .. } => "SharesIssued"@,
            Event::WantedPosted { .. } => "WantedPosted"@,
            Event::MembershipRequested { .. } => "MembershipRequested"@,
            Event::LaborSet { .. } => "LaborSet"@,
            Event::EmploymentOffered { .. } => "EmploymentOffered"@,
            Event::ShareRuleSet { .. } => "ShareRuleSet"@,
            Event::LeaseAccepted { .. } => "LeaseAccepted"@,
            Event::EmploymentAccepted { .. } => "EmploymentAccepted"@,
            Event::HardshipBegan { .. } => "HardshipBegan"@,
            Event::HardshipEnded { .. } => "HardshipEnded"@,
            Event::DestitutionBegan { .. } => "DestitutionBegan"@,
            Event::DestitutionEnded { .. } => "DestitutionEnded"@,
        }
    }

    /// The event's kind: its variant's name, as the log and the API show it.
    pub fn kind(&self) -> (k: &'static str)
        ensures
            k@ == self.spec_kind(),
    {
        match self {
            Event::SocietyCreated { .. } => "SocietyCreated",
            Event::EpochStarted { .. } => "EpochStarted",
            Event::Seeded { .. } => "Seeded",
            Event::EpochEnded { .. } => "EpochEnded",
            Event::CitizenJoined { .. } => "CitizenJoined",
            Event::CitizenSeen { .. } => "CitizenSeen",
            Event::CitizenDormant { .. } => "CitizenDormant",
            Event::CitizenReturned { .. } => "CitizenReturned",
            Event::HouseholderJoined { .. } => "HouseholderJoined",
            Event::Transferred { .. } => "Transferred",
            Event::OrgFounded { .. } => "OrgFounded",
            Event::WorkplaceAdded { .. } => "WorkplaceAdded",
            Event::ManagerAppointed { .. } => "ManagerAppointed",
            Event::DividendDeclared { .. } => "DividendDeclared",
            Event::DividendPaid { .. } => "DividendPaid",
            Event::MachinesInstalled { .. } => "MachinesInstalled",
            Event::MachinesUninstalled { .. } => "MachinesUninstalled",
            Event::MachinesDepreciated { .. } => "MachinesDepreciated",
            Event::DwellingTransferred { .. } => "DwellingTransferred",
            Event::Paid { .. } => "Paid",
            Event::Produced { .. } => "Produced",
            Event::MemberLeft { .. } => "MemberLeft",
            Event::MemberAdmitted { .. } => "MemberAdmitted",
            Event::Assigned { .. } => "Assigned",
            Event::Unassigned { .. } => "Unassigned",
            Event::PaymentMissed { .. } => "PaymentMissed",
            Event::EmploymentTerminated { .. } => "EmploymentTerminated",
            Event::RentMissed { .. } => "RentMissed",
            Event::CreditMissed { .. } => "CreditMissed",
            Event::CreditRepaid { .. } => "CreditRepaid",
            Event::CreditDefaulted { .. } => "CreditDefaulted",
            Event::LeaseEnded { .. } => "LeaseEnded",
            Event::WantedRemoved { .. } => "WantedRemoved",
            Event::DwellingOccupied { .. } => "DwellingOccupied",
            Event::CycleClosed { .. } => "CycleClosed",
            Event::RentPaid { .. } => "RentPaid",
            Event::CreditInstallment { .. } => "CreditInstallment",
            Event::DwellingBuilt { .. } => "DwellingBuilt",
            Event::SharesIssued { .. } => "SharesIssued",
            Event::WantedPosted { .. } => "WantedPosted",
            Event::MembershipRequested { .. } => "MembershipRequested",
            Event::LaborSet { .. } => "LaborSet",
            Event::EmploymentOffered { .. } => "EmploymentOffered",
            Event::ShareRuleSet { .. } => "ShareRuleSet",
            Event::LeaseAccepted { .. } => "LeaseAccepted",
            Event::EmploymentAccepted { .. } => "EmploymentAccepted",
            Event::HardshipBegan { .. } => "HardshipBegan",
            Event::HardshipEnded { .. } => "HardshipEnded",
            Event::DestitutionBegan { .. } => "DestitutionBegan",
            Event::DestitutionEnded { .. } => "DestitutionEnded",
        }
    }
}

} // verus!
