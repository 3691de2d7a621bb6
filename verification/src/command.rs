//! What arrives at the engine: who acts, for whom, from where and when; and
//! how a refused command is answered.
use crate::event::{Actor, Event};
use crate::ids::{CitizenId, OrgId, Tick};
use crate::kinds::ClientKind;
use crate::table::{find, index_of};
use crate::world::{Citizen, World};
use crate::capabilities::{Capabilities, Rules};
use crate::ids::{ContractId, DwellingId, OfferId, OrderId, ProposalId, SlotId, WorkplaceId};
use crate::kinds::{CitizenKind, ContractKind, Good, OrgKind, PerGood, WorkplaceKind};
use crate::ledger::{Asset, Party};
use crate::money::Money;
use crate::world::{
    Allocation, Ballot, Collateral, Instrument, LeaseAsset, Pay, Price, ProposalKind, SaleAsset, Side, StandingPlan,
};
use crate::message::{put, put_citizen, put_contract, put_dwelling, put_kind, put_money, put_name, put_num, put_org, put_party, put_slot, put_workplace, say};
use vstd::prelude::*;

verus! {

/// What arrives at the engine: who, for whom, from where, when.
#[derive(Clone, Debug)]
pub struct Envelope<C> {
    pub actor: Actor,
    /// A manager acting for an org: asks from org inventory, treasury transfers.
    pub on_behalf_of: Option<OrgId>,
    pub client_kind: ClientKind,
    pub received_at_tick: Tick,
    pub command: C,
}

impl<C> Envelope<C> {
    /// A command from the engine itself.
    pub fn system(command: C, tick: Tick) -> (e: Self)
        ensures
            e.actor == Actor::System,
            e.on_behalf_of is None,
            e.client_kind == ClientKind::Sim,
            e.received_at_tick == tick,
            e.command == command,
    {
        Envelope { actor: Actor::System, on_behalf_of: None, client_kind: ClientKind::Sim, received_at_tick: tick, command }
    }

    /// A command from a citizen.
    pub fn citizen(citizen: CitizenId, command: C, tick: Tick) -> (e: Self)
        ensures
            e.actor == Actor::Citizen(citizen),
            e.on_behalf_of is None,
            e.client_kind == ClientKind::Sim,
            e.received_at_tick == tick,
            e.command == command,
    {
        Envelope {
            actor: Actor::Citizen(citizen),
            on_behalf_of: None,
            client_kind: ClientKind::Sim,
            received_at_tick: tick,
            command,
        }
    }

    /// The same envelope, acting for an org.
    pub fn on_behalf_of(self, org: OrgId) -> (e: Self)
        ensures
            e == (Envelope { on_behalf_of: Some(org), ..self }),
    {
        let mut e = self;
        e.on_behalf_of = Some(org);
        e
    }

    /// The same envelope, arriving through another client.
    pub fn via(self, client_kind: ClientKind) -> (e: Self)
        ensures
            e == (Envelope { client_kind, ..self }),
    {
        let mut e = self;
        e.client_kind = client_kind;
        e
    }
}

/// Why a command was refused.
#[derive(Clone, Copy, Debug, PartialEq, Eq, Structural)]
pub enum RejectCode {
    NotInThisSociety,
    NotImplemented,
    EpochEnded,
    NotAuthorized,
    UnknownCitizen,
    UnknownOrg,
    UnknownWorkplace,
    UnknownOffer,
    UnknownOrder,
    UnknownContract,
    UnknownDwelling,
    NotManager,
    NotOwner,
    NotControllingOwner,
    NotParty,
    Dormant,
    OptionsNarrowed,
    InsufficientFunds,
    InsufficientGoods,
    PantryFull,
    NoSlotAvailable,
    WorkplaceFull,
    TooManyWorkplaces,
    OverBudget,
    NotAssigned,
    OverContractHours,
    InvalidQuantity,
    InvalidPrice,
    InvalidTerm,
    SelfDeal,
    AlreadyExists,
    HandleTaken,
    NoStore,
    OverEntitlement,
    NotOnPriceList,
    NoRequestPending,
    BelowMinimumWage,
    TooManyProposals,
    UnknownProposal,
    NoElection,
    NotACandidate,
    ConsecutiveTerm,
    NotAnOfficeHolder,
}

/// A refused command: the reason and a message for the player.
#[derive(Clone, Debug)]
pub struct Reject {
    pub code: RejectCode,
    pub message: String,
}

impl Reject {
    /// A refusal with its code and message.
    pub fn new(code: RejectCode, message: String) -> (r: Reject)
        ensures
            r.code == code,
            r.message == message,
    {
        Reject { code, message }
    }
}

/// The citizen an envelope's actor acts as, by position among the citizens;
/// refused where the actor is the system, unknown, or dormant.
pub open spec fn spec_acting_citizen(w: World, actor: Actor) -> Result<int, RejectCode> {
    match actor {
        Actor::System => Err(RejectCode::NotAuthorized),
        Actor::Citizen(id) => match find(w.citizens@, id.0) {
            None => Err(RejectCode::UnknownCitizen),
            Some(i) => if w.citizens@[i].dormant {
                Err(RejectCode::Dormant)
            } else {
                Ok(i)
            },
        },
    }
}

/// The citizen an envelope acts as, or a rejection when the actor is
/// missing, dormant, or the system where a citizen is required.
pub fn acting_citizen<'w, C>(world: &'w World, envelope: &Envelope<C>) -> (r: Result<&'w Citizen, Reject>)
    ensures
        match (r, spec_acting_citizen(*world, envelope.actor)) {
            (Ok(c), Ok(i)) => *c == world.citizens@[i],
            (Err(e), Err(code)) => e.code == code,
            _ => false,
        },
{
    let id = match envelope.actor {
        Actor::System => {
            return Err(Reject::new(RejectCode::NotAuthorized, "a citizen must issue this command".to_string()));
        },
        Actor::Citizen(id) => id,
    };
    let i = match index_of(&world.citizens, id.0) {
        Some(i) => i,
        None => {
            return Err(Reject::new(RejectCode::UnknownCitizen, { let mut m = say("no citizen "); put_citizen(&mut m, id); m }));
        },
    };
    let c = &world.citizens[i];
    if c.dormant {
        return Err(Reject::new(RejectCode::Dormant, { let mut m = String::new(); put_citizen(&mut m, id); put(&mut m, " is dormant"); m }));
    }
    Ok(c)
}

/// What a citizen's presence ping records: nothing for a repeat within the
/// tick by an active citizen, else the sighting, and the return of a dormant
/// citizen.
pub open spec fn spec_seen(w: World, actor: Actor, tick: Tick, client_kind: ClientKind) -> Result<Seq<Event>, RejectCode> {
    match actor {
        Actor::System => Err(RejectCode::NotAuthorized),
        Actor::Citizen(id) => match find(w.citizens@, id.0) {
            None => Err(RejectCode::UnknownCitizen),
            Some(i) => {
                let c = w.citizens@[i];
                let sighting = Event::CitizenSeen { citizen: id, tick, client_kind };
                if c.last_seen_tick == tick && !c.dormant {
                    Ok(Seq::empty())
                } else if c.dormant {
                    Ok(seq![sighting, Event::CitizenReturned { citizen: id }])
                } else {
                    Ok(seq![sighting])
                }
            },
        },
    }
}

/// `Seen`: a citizen's presence, throttled to once per tick; a repeat is no
/// error but records nothing.
pub fn seen<C>(world: &World, envelope: &Envelope<C>) -> (r: Result<Vec<Event>, Reject>)
    ensures
        match (r, spec_seen(*world, envelope.actor, envelope.received_at_tick, envelope.client_kind)) {
            (Ok(v), Ok(s)) => v@ == s,
            (Err(e), Err(code)) => e.code == code,
            _ => false,
        },
{
    let id = match envelope.actor {
        Actor::System => {
            return Err(Reject::new(RejectCode::NotAuthorized, "Seen needs a citizen".to_string()));
        },
        Actor::Citizen(id) => id,
    };
    let i = match index_of(&world.citizens, id.0) {
        Some(i) => i,
        None => {
            return Err(Reject::new(RejectCode::UnknownCitizen, { let mut m = say("no citizen "); put_citizen(&mut m, id); m }));
        },
    };
    let c = &world.citizens[i];
    let tick = envelope.received_at_tick;
    let mut v: Vec<Event> = Vec::new();
    if c.last_seen_tick == tick && !c.dormant {
        proof {
            assert(v@ =~= Seq::<Event>::empty());
        }
        return Ok(v);
    }
    v.push(Event::CitizenSeen { citizen: id, tick, client_kind: envelope.client_kind });
    if c.dormant {
        v.push(Event::CitizenReturned { citizen: id });
    }
    proof {
        let sighting = Event::CitizenSeen { citizen: id, tick, client_kind: envelope.client_kind };
        if c.dormant {
            assert(v@ =~= seq![sighting, Event::CitizenReturned { citizen: id }]);
        } else {
            assert(v@ =~= seq![sighting]);
        }
    }
    Ok(v)
}

/// What a citizen, a manager, the society's authority or the operator asks
/// of the engine.
#[derive(Clone, Debug)]
pub enum Command {
    Join { handle: String, kind: CitizenKind },
    Seen,
    SetStandingPlan { plan: Box<StandingPlan> },
    SetLabor { allocations: Vec<Allocation> },
    Transfer { to: Party, asset: Asset, memo: String },
    PlaceOrder { instrument: Instrument, side: Side, qty: u32, limit_price: Money, expires_tick: Option<Tick> },
    CancelOrder { order: OrderId },
    FoundOrg { kind: OrgKind, name: String, first_workplace: Option<(WorkplaceKind, Option<SlotId>)> },
    AddWorkplace { org: OrgId, kind: WorkplaceKind, slot: Option<SlotId> },
    AppointManager { org: OrgId, citizen: Option<CitizenId> },
    InstallMachines { org: OrgId, workplace: WorkplaceId, qty: u32 },
    UninstallMachines { org: OrgId, workplace: WorkplaceId, qty: u32 },
    DeclareDividend { org: OrgId, per_share: Money },
    IssueShares { org: OrgId, qty: u64 },
    OfferEmployment {
        org: OrgId,
        workplace: WorkplaceId,
        pay: Pay,
        max_hours: u8,
        term_cycles: Option<u32>,
        notice_cycles: u32,
        places: u32,
    },
    AcceptEmployment { offer: OfferId },
    TerminateEmployment { contract: ContractId },
    OfferSale { asset: SaleAsset, price: Price, to: Option<Party> },
    AcceptSale { offer: OfferId },
    CancelSale { offer: OfferId },
    PostWanted { good: Good, qty: u32, max_price: Money },
    RemoveWanted { offer: OfferId },
    WithdrawOffer { offer: OfferId },
    OfferCredit {
        to: Option<Party>,
        principal: Money,
        rate_per_cycle_bp: u32,
        term_cycles: u32,
        collateral: Option<Collateral>,
    },
    AcceptCredit { offer: OfferId },
    OfferLease { asset: LeaseAsset, rent_per_cycle: Money, term_cycles: Option<u32> },
    AcceptLease { offer: OfferId },
    EndLease { contract: ContractId },
    MoveIn { dwelling: DwellingId },
    MoveOut { dwelling: DwellingId },
    RequestMembership { org: OrgId },
    AdmitMember { org: OrgId, citizen: CitizenId },
    LeaveOrg { org: OrgId },
    Pledge { hours: Option<u8>, goods: Option<(Good, u32)>, term_cycles: u32, to: Option<OrgId> },
    SetPolicy { policy: Box<crate::policy::Policy> },
    EndEpoch { reason: String },
    RequestStoreDraw { good: Good, qty: u32 },
    JoinWorkplace { workplace: WorkplaceId },
    LeaveWorkplace { workplace: WorkplaceId },
    RequestStateStore { good: Good, qty: u32 },
    /// The plan's integer parts; its targets and the Materials split are
    /// real-valued and are handled where the planning figures are.
    SetPlan {
        price_list: Option<PerGood<Option<Money>>>,
        wage_grades: Option<Vec<Money>>,
        ration_caps: Option<PerGood<Option<u32>>>,
    },
    RequestTransfer { to_workplace: WorkplaceId },
    DecideTransfer { citizen: CitizenId, approve: bool },
    SetShareRule { org: OrgId, rule: crate::params::ShareRule },
    RequestBankLoan { org: OrgId, principal: Money, term_cycles: u32 },
    ProposeAdmission { org: OrgId, citizen: CitizenId },
    VoteAdmission { proposal: ProposalId, approve: bool },
    FormUnion { firm: OrgId, name: String },
    OfferCollectiveAgreement { union: OrgId, wage_floor: Money, hours: u8, term_cycles: u32 },
    AcceptCollectiveAgreement { offer: OfferId },
    CallStrike { union: OrgId, cycles: u32 },
    Propose { title: String, text: String, kind: ProposalKind },
    Vote { proposal: ProposalId, ballot: Ballot },
    Stand { office: crate::constitution::OfficeKind },
    Withdraw { office: crate::constitution::OfficeKind },
    Approve { office: crate::constitution::OfficeKind, candidates: Vec<CitizenId> },
}

impl Command {
    /// The command's name: its variant's name.
    pub open spec fn spec_kind(&self) -> Seq<char> {
        match self {
            Command::Join { .. } => "Join"@,
            Command::Seen => "Seen"@,
            Command::SetStandingPlan { .. } => "SetStandingPlan"@,
            Command::SetLabor { .. } => "SetLabor"@,
            Command::Transfer { .. } => "Transfer"@,
            Command::PlaceOrder { .. } => "PlaceOrder"@,
            Command::CancelOrder { .. } => "CancelOrder"@,
            Command::FoundOrg { .. } => "FoundOrg"@,
            Command::AddWorkplace { .. } => "AddWorkplace"@,
            Command::AppointManager { .. } => "AppointManager"@,
            Command::InstallMachines { .. } => "InstallMachines"@,
            Command::UninstallMachines { .. } => "UninstallMachines"@,
            Command::DeclareDividend { .. } => "DeclareDividend"@,
            Command::IssueShares { .. } => "IssueShares"@,
            Command::OfferEmployment { .. } => "OfferEmployment"@,
            Command::AcceptEmployment { .. } => "AcceptEmployment"@,
            Command::TerminateEmployment { .. } => "TerminateEmployment"@,
            Command::OfferSale { .. } => "OfferSale"@,
            Command::AcceptSale { .. } => "AcceptSale"@,
            Command::CancelSale { .. } => "CancelSale"@,
            Command::PostWanted { .. } => "PostWanted"@,
            Command::RemoveWanted { .. } => "RemoveWanted"@,
            Command::WithdrawOffer { .. } => "WithdrawOffer"@,
            Command::OfferCredit { .. } => "OfferCredit"@,
            Command::AcceptCredit { .. } => "AcceptCredit"@,
            Command::OfferLease { .. } => "OfferLease"@,
            Command::AcceptLease { .. } => "AcceptLease"@,
            Command::EndLease { .. } => "EndLease"@,
            Command::MoveIn { .. } => "MoveIn"@,
            Command::MoveOut { .. } => "MoveOut"@,
            Command::RequestMembership { .. } => "RequestMembership"@,
            Command::AdmitMember { .. } => "AdmitMember"@,
            Command::LeaveOrg { .. } => "LeaveOrg"@,
            Command::Pledge { .. } => "Pledge"@,
            Command::SetPolicy { .. } => "SetPolicy"@,
            Command::EndEpoch { .. } => "EndEpoch"@,
            Command::RequestStoreDraw { .. } => "RequestStoreDraw"@,
            Command::JoinWorkplace { .. } => "JoinWorkplace"@,
            Command::LeaveWorkplace { .. } => "LeaveWorkplace"@,
            Command::RequestStateStore { .. } => "RequestStateStore"@,
            Command::SetPlan { .. } => "SetPlan"@,
            Command::RequestTransfer { .. } => "RequestTransfer"@,
            Command::DecideTransfer { .. } => "DecideTransfer"@,
            Command::SetShareRule { .. } => "SetShareRule"@,
            Command::RequestBankLoan { .. } => "RequestBankLoan"@,
            Command::ProposeAdmission { .. } => "ProposeAdmission"@,
            Command::VoteAdmission { .. } => "VoteAdmission"@,
            Command::FormUnion { .. } => "FormUnion"@,
            Command::OfferCollectiveAgreement { .. } => "OfferCollectiveAgreement"@,
            Command::AcceptCollectiveAgreement { .. } => "AcceptCollectiveAgreement"@,
            Command::CallStrike { .. } => "CallStrike"@,
            Command::Propose { .. } => "Propose"@,
            Command::Vote { .. } => "Vote"@,
            Command::Stand { .. } => "Stand"@,
            Command::Withdraw { .. } => "Withdraw"@,
            Command::Approve { .. } => "Approve"@,
        }
    }

    /// The command's name: its variant's name.
    pub fn kind(&self) -> (k: &'static str)
        ensures
            k@ == self.spec_kind(),
    {
        match self {
            Command::Join { .. } => "Join",
            Command::Seen => "Seen",
            Command::SetStandingPlan { .. } => "SetStandingPlan",
            Command::SetLabor { .. } => "SetLabor",
            Command::Transfer { .. } => "Transfer",
            Command::PlaceOrder { .. } => "PlaceOrder",
            Command::CancelOrder { .. } => "CancelOrder",
            Command::FoundOrg { .. } => "FoundOrg",
            Command::AddWorkplace { .. } => "AddWorkplace",
            Command::AppointManager { .. } => "AppointManager",
            Command::InstallMachines { .. } => "InstallMachines",
            Command::UninstallMachines { .. } => "UninstallMachines",
            Command::DeclareDividend { .. } => "DeclareDividend",
            Command::IssueShares { .. } => "IssueShares",
            Command::OfferEmployment { .. } => "OfferEmployment",
            Command::AcceptEmployment { .. } => "AcceptEmployment",
            Command::TerminateEmployment { .. } => "TerminateEmployment",
            Command::OfferSale { .. } => "OfferSale",
            Command::AcceptSale { .. } => "AcceptSale",
            Command::CancelSale { .. } => "CancelSale",
            Command::PostWanted { .. } => "PostWanted",
            Command::RemoveWanted { .. } => "RemoveWanted",
            Command::WithdrawOffer { .. } => "WithdrawOffer",
            Command::OfferCredit { .. } => "OfferCredit",
            Command::AcceptCredit { .. } => "AcceptCredit",
            Command::OfferLease { .. } => "OfferLease",
            Command::AcceptLease { .. } => "AcceptLease",
            Command::EndLease { .. } => "EndLease",
            Command::MoveIn { .. } => "MoveIn",
            Command::MoveOut { .. } => "MoveOut",
            Command::RequestMembership { .. } => "RequestMembership",
            Command::AdmitMember { .. } => "AdmitMember",
            Command::LeaveOrg { .. } => "LeaveOrg",
            Command::Pledge { .. } => "Pledge",
            Command::SetPolicy { .. } => "SetPolicy",
            Command::EndEpoch { .. } => "EndEpoch",
            Command::RequestStoreDraw { .. } => "RequestStoreDraw",
            Command::JoinWorkplace { .. } => "JoinWorkplace",
            Command::LeaveWorkplace { .. } => "LeaveWorkplace",
            Command::RequestStateStore { .. } => "RequestStateStore",
            Command::SetPlan { .. } => "SetPlan",
            Command::RequestTransfer { .. } => "RequestTransfer",
            Command::DecideTransfer { .. } => "DecideTransfer",
            Command::SetShareRule { .. } => "SetShareRule",
            Command::RequestBankLoan { .. } => "RequestBankLoan",
            Command::ProposeAdmission { .. } => "ProposeAdmission",
            Command::VoteAdmission { .. } => "VoteAdmission",
            Command::FormUnion { .. } => "FormUnion",
            Command::OfferCollectiveAgreement { .. } => "OfferCollectiveAgreement",
            Command::AcceptCollectiveAgreement { .. } => "AcceptCollectiveAgreement",
            Command::CallStrike { .. } => "CallStrike",
            Command::Propose { .. } => "Propose",
            Command::Vote { .. } => "Vote",
            Command::Stand { .. } => "Stand",
            Command::Withdraw { .. } => "Withdraw",
            Command::Approve { .. } => "Approve",
        }
    }
}

/// Whether a society with these capabilities has an office of this kind.
pub open spec fn has_office_of(caps: Capabilities, office: crate::constitution::OfficeKind) -> bool {
    exists|k: int| 0 <= k < caps.offices@.len() && (#[trigger] caps.offices@[k]).kind == office
}

/// Whether the constitution enables a command at all: most commands exist
/// everywhere; money transfers need money, the order book needs a market,
/// contracts need their kind enabled, orgs their kind, the store and the
/// plan their pricing, labor commands their labor mode, proposals their kind
/// and office commands their office.
pub open spec fn spec_allows(caps: Capabilities, c: Command) -> bool {
    match c {
        Command::Transfer { asset, .. } => match asset {
            Asset::Good(..) => true,
            Asset::Money(_) => caps.money,
        },
        Command::PlaceOrder { .. } | Command::CancelOrder { .. } => caps.order_books,
        Command::FoundOrg { kind, .. } => caps.org_kinds@.contains(kind),
        Command::DeclareDividend { .. } | Command::IssueShares { .. } => caps.contracts@.contains(ContractKind::Share),
        Command::OfferEmployment { .. } | Command::AcceptEmployment { .. } | Command::TerminateEmployment {
            ..
        } => caps.contracts@.contains(ContractKind::Employment),
        Command::OfferSale { price, .. } => match price {
            Price::Money(_) => caps.money && caps.contracts@.contains(ContractKind::SaleDirect),
            Price::Good(..) => caps.contracts@.contains(ContractKind::SaleDirect),
        },
        Command::AcceptSale { .. } | Command::CancelSale { .. } => caps.contracts@.contains(ContractKind::SaleDirect),
        Command::OfferCredit { .. } | Command::AcceptCredit { .. } => caps.contracts@.contains(ContractKind::Credit),
        Command::RequestBankLoan { .. } => caps.contracts@.contains(ContractKind::PublicCredit),
        Command::ProposeAdmission { .. } | Command::VoteAdmission { .. } => caps.org_kinds@.contains(
            OrgKind::Cooperative,
        ),
        Command::FormUnion { .. } | Command::CallStrike { .. } => caps.org_kinds@.contains(OrgKind::Union),
        Command::OfferCollectiveAgreement { .. } | Command::AcceptCollectiveAgreement {
            ..
        } => caps.contracts@.contains(ContractKind::CollectiveAgreement),
        Command::OfferLease { .. } | Command::AcceptLease { .. } | Command::EndLease {
            ..
        } => caps.contracts@.contains(ContractKind::Lease),
        Command::Pledge { .. } => caps.contracts@.contains(ContractKind::Pledge),
        Command::RequestStoreDraw { .. } => caps.common_store,
        Command::JoinWorkplace { .. } | Command::LeaveWorkplace { .. } => caps.labor
            == crate::constitution::LaborMode::Norm,
        Command::RequestStateStore { .. } | Command::SetPlan { .. } => caps.administered_prices,
        Command::RequestTransfer { .. } | Command::DecideTransfer { .. } => caps.labor
            == crate::constitution::LaborMode::Assigned,
        Command::SetShareRule { .. } => caps.org_kinds@.contains(OrgKind::Cooperative),
        Command::Propose { kind, .. } => caps.proposal_kinds@.contains(kind.spec_tag()),
        Command::Vote { .. } => caps.proposal_kinds@.len() > 0 || caps.org_kinds@.contains(OrgKind::Cooperative),
        Command::Stand { office } => has_office_of(caps, office),
        Command::Withdraw { office } => has_office_of(caps, office),
        Command::Approve { office, .. } => has_office_of(caps, office),
        _ => true,
    }
}

impl Capabilities {
    /// Whether the constitution enables this command at all.
    pub fn allows(&self, cmd: &Command) -> (b: bool)
        ensures
            b == spec_allows(*self, *cmd),
    {
        match cmd {
            Command::Transfer { asset, .. } => match asset {
                Asset::Good(..) => true,
                Asset::Money(_) => self.money,
            },
            Command::PlaceOrder { .. } | Command::CancelOrder { .. } => self.order_books,
            Command::FoundOrg { kind, .. } => self.allows_org(*kind),
            Command::DeclareDividend { .. } | Command::IssueShares { .. } => self.allows_contract(ContractKind::Share),
            Command::OfferEmployment { .. } | Command::AcceptEmployment { .. } | Command::TerminateEmployment {
                ..
            } => self.allows_contract(ContractKind::Employment),
            Command::OfferSale { price, .. } => match price {
                Price::Money(_) => self.money && self.allows_contract(ContractKind::SaleDirect),
                Price::Good(..) => self.allows_contract(ContractKind::SaleDirect),
            },
            Command::AcceptSale { .. } | Command::CancelSale { .. } => self.allows_contract(ContractKind::SaleDirect),
            Command::OfferCredit { .. } | Command::AcceptCredit { .. } => self.allows_contract(ContractKind::Credit),
            Command::RequestBankLoan { .. } => self.allows_contract(ContractKind::PublicCredit),
            Command::ProposeAdmission { .. } | Command::VoteAdmission { .. } => self.allows_org(OrgKind::Cooperative),
            Command::FormUnion { .. } | Command::CallStrike { .. } => self.allows_org(OrgKind::Union),
            Command::OfferCollectiveAgreement { .. } | Command::AcceptCollectiveAgreement {
                ..
            } => self.allows_contract(ContractKind::CollectiveAgreement),
            Command::OfferLease { .. } | Command::AcceptLease { .. } | Command::EndLease {
                ..
            } => self.allows_contract(ContractKind::Lease),
            Command::Pledge { .. } => self.allows_contract(ContractKind::Pledge),
            Command::RequestStoreDraw { .. } => self.common_store,
            Command::JoinWorkplace { .. } | Command::LeaveWorkplace { .. } => self.labor
                == crate::constitution::LaborMode::Norm,
            Command::RequestStateStore { .. } | Command::SetPlan { .. } => self.administered_prices,
            Command::RequestTransfer { .. } | Command::DecideTransfer { .. } => self.labor
                == crate::constitution::LaborMode::Assigned,
            Command::SetShareRule { .. } => self.allows_org(OrgKind::Cooperative),
            Command::Propose { kind, .. } => self.allows_proposal(kind.tag()),
            Command::Vote { .. } => self.proposal_kinds.len() > 0 || self.allows_org(OrgKind::Cooperative),
            Command::Stand { office } => self.has_office(*office),
            Command::Withdraw { office } => self.has_office(*office),
            Command::Approve { office, .. } => self.has_office(*office),
            _ => true,
        }
    }
}

/// Whether a command may go on to its own checks: refused once the epoch
/// has ended, then refused where the society's constitution does not have it.
pub open spec fn spec_gate(w: World, rules: Rules, c: Command) -> Result<(), RejectCode> {
    if w.meta.epoch_ended is Some {
        Err(RejectCode::EpochEnded)
    } else if !spec_allows(rules.capabilities, c) {
        Err(RejectCode::NotInThisSociety)
    } else {
        Ok(())
    }
}

/// Refuse a command once the epoch has ended, or where the society does not
/// have it; else let it go on to its own checks.
pub fn gate(world: &World, rules: &Rules, envelope: &Envelope<Command>) -> (r: Result<(), Reject>)
    ensures
        match (r, spec_gate(*world, *rules, envelope.command)) {
            (Ok(()), Ok(())) => true,
            (Err(e), Err(code)) => e.code == code,
            _ => false,
        },
{
    if world.meta.epoch_ended.is_some() {
        return Err(Reject::new(RejectCode::EpochEnded, "the epoch has ended".to_string()));
    }
    if !rules.capabilities.allows(&envelope.command) {
        let mut m = String::new();
        m.append(envelope.command.kind());
        m.append(" does not exist in this society");
        return Err(Reject::new(RejectCode::NotInThisSociety, m));
    }
    Ok(())
}

/// What `EndEpoch` answers: only the operator ends an epoch, and it ends in
/// the cycle its last tick fell in.
pub open spec fn spec_end_epoch(w: World, actor: Actor) -> Result<Seq<Event>, RejectCode> {
    if actor != Actor::System {
        Err(RejectCode::NotAuthorized)
    } else {
        let last = if w.meta.tick > 0 {
            (w.meta.tick - 1) as u32
        } else {
            0u32
        };
        Ok(
            seq![
                Event::EpochEnded {
                    reason: crate::world::EpochEndReason::Operator,
                    cycle: w.spec_cycle_of(last) as u32,
                },
            ],
        )
    }
}

/// `EndEpoch`: the operator ends the epoch.
pub fn end_epoch<C>(world: &World, envelope: &Envelope<C>) -> (r: Result<Vec<Event>, Reject>)
    requires
        world.wf(),
    ensures
        match (r, spec_end_epoch(*world, envelope.actor)) {
            (Ok(v), Ok(s)) => v@ == s,
            (Err(e), Err(code)) => e.code == code,
            _ => false,
        },
{
    if envelope.actor != Actor::System {
        return Err(Reject::new(RejectCode::NotAuthorized, say("only the operator ends an epoch")));
    }
    let last: u32 = if world.meta.tick > 0 {
        world.meta.tick - 1
    } else {
        0
    };
    let cycle = world.cycle_of(last);
    let mut v: Vec<Event> = Vec::new();
    v.push(Event::EpochEnded { reason: crate::world::EpochEndReason::Operator, cycle });
    proof {
        assert(v@ =~= spec_end_epoch(*world, envelope.actor)->Ok_0);
    }
    Ok(v)
}

} // verus!
