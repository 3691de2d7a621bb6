//! The `World`: the whole state of one society, changed only by applying
//! events. Every table is a `Vec` of rows in strictly increasing id order.
use crate::config::Preset;
use crate::constitution::{Constitution, OfficeKind, Pricing};
use crate::ids::{
    CitizenId, ContractId, Cycle, DwellingId, Epoch, OfferId, OrderId, OrgId, ProposalId, SlotId, Tick,
    WorkplaceId,
};
use crate::kinds::{CitizenKind, Effort, Good, GoodCounts, OrgKind, PerGood, WorkplaceKind};
use crate::ledger::{Asset, LedgerMeta, Party};
use crate::money::Money;
use crate::params::{Params, PerKind, ShareRule};
use crate::policy::Policy;
use crate::table::{ids_increasing, Keyed};
use vstd::prelude::*;

verus! {

/// Identity and clock of the society.
#[derive(Clone, Debug)]
pub struct Meta {
    pub society_id: u64,
    pub seed: u64,
    pub preset: String,
    pub epoch: Epoch,
    pub tick: Tick,
    /// Why the epoch ended, once it has.
    pub epoch_ended: Option<EpochEndReason>,
    /// Consecutive cycles the population has stayed below its floor.
    pub low_population_cycles: u32,
}

/// Why an epoch ended.
#[derive(Clone, Copy, Debug, PartialEq, Eq, Structural)]
pub enum EpochEndReason {
    Operator,
}

/// The next unused id of each table.
#[derive(Clone, Copy, Debug, PartialEq, Eq)]
pub struct NextIds {
    pub citizen: CitizenId,
    pub org: OrgId,
    pub workplace: WorkplaceId,
    pub dwelling: DwellingId,
    pub contract: ContractId,
    pub offer: OfferId,
    pub order: OrderId,
    pub proposal: ProposalId,
}

/// A citizen's money, pantry and home.
#[derive(Clone, Copy, Debug, PartialEq, Eq)]
pub struct Household {
    pub balance: Money,
    pub pantry: GoodCounts,
    pub dwelling: Option<DwellingId>,
}

/// Hours and effort a citizen puts into one workplace per tick.
#[derive(Clone, Copy, Debug, PartialEq, Eq)]
pub struct Allocation {
    pub workplace: WorkplaceId,
    pub hours: u8,
    pub effort: Effort,
}

/// A citizen's integer labor state.
#[derive(Clone, Debug)]
pub struct LaborState {
    pub allocations: Vec<Allocation>,
    pub budget: u8,
    pub fatigue_debt: u8,
    pub consecutive_high_effort_cycles: u8,
}

/// Need meters, in tenths of a point (0..=1000).
#[derive(Clone, Copy, Debug, PartialEq, Eq)]
pub struct Needs {
    pub food: u16,
    pub shelter: u16,
    pub comfort: u16,
    pub low_food_ticks_this_cycle: u8,
    pub consecutive_hardship_cycles: u32,
}

/// Public flags on a citizen.
#[derive(Clone, Copy, Debug, PartialEq, Eq)]
pub struct CitizenFlags {
    pub in_hardship: bool,
    pub destitute: bool,
    pub options_narrowed: bool,
    pub defaulted: bool,
}

/// A citizen's line on the Ledger of Contribution.
#[derive(Clone, Copy, Debug, PartialEq, Eq)]
pub struct Contribution {
    pub tick_hours_total: u32,
}

/// What a citizen's standing plan decides while they are away.
#[derive(Clone, Copy, Debug, PartialEq, Eq)]
pub struct StandingPlan {
    pub keep_food_at_least: u32,
    pub max_food_price: Option<Money>,
    pub keep_balance_at_least: Money,
    pub vote_default: VoteDefault,
}

/// A human player or a scripted householder.
#[derive(Clone, Debug)]
pub struct Citizen {
    pub id: CitizenId,
    pub handle: String,
    pub kind: CitizenKind,
    pub joined_tick: Tick,
    pub last_seen_tick: Tick,
    pub dormant: bool,
    pub household: Household,
    pub labor: LaborState,
    pub needs: Needs,
    pub plan: StandingPlan,
    pub flags: CitizenFlags,
    pub contribution: Contribution,
    pub wages_total: Money,
}

/// Who holds shares of a firm: a citizen, or the firm itself.
#[derive(Clone, Copy, Debug, PartialEq, Eq, Structural)]
pub enum ShareHolder {
    Citizen(CitizenId),
    OrgSelf,
}

/// One line of a share registry.
#[derive(Clone, Copy, Debug, PartialEq, Eq)]
pub struct ShareHolding {
    pub holder: ShareHolder,
    pub qty: u64,
}

/// How an org is owned.
#[derive(Clone, Debug)]
pub enum Ownership {
    /// A share registry: `issued` shares, held per line of `holdings` (one
    /// line per holder) or in escrow.
    Shares { issued: u64, holdings: Vec<ShareHolding> },
    /// Owned equally by its current members.
    Members,
    /// Owned by the society.
    Society,
}

/// When a member joined.
#[derive(Clone, Copy, Debug, PartialEq, Eq)]
pub struct MemberSince {
    pub citizen: CitizenId,
    pub tick: Tick,
}

/// A firm, cooperative, collective, state enterprise, union or association.
#[derive(Clone, Debug)]
pub struct Org {
    pub id: OrgId,
    pub kind: OrgKind,
    pub name: String,
    pub ownership: Ownership,
    pub manager: Option<CitizenId>,
    pub treasury: Money,
    pub inventory: GoodCounts,
    /// The org's workplaces, each once, in the order they were added.
    pub workplaces: Vec<WorkplaceId>,
    /// Its employment contracts, in id order.
    pub employees: Vec<ContractId>,
    /// Its members, in id order.
    pub members: Vec<CitizenId>,
    pub founded_tick: Tick,
    pub payment_missed: bool,
    pub declared_dividend: Option<Money>,
    /// Treasury that is capital, not surplus: what the coop held after its last share-out.
    pub surplus_base: Money,
    pub share_rule: Option<ShareRule>,
    pub member_since: Vec<MemberSince>,
}

/// A worker's position at a workplace.
#[derive(Clone, Copy, Debug, PartialEq, Eq)]
pub struct Assignment {
    pub contract: Option<ContractId>,
    pub hours: u8,
    pub effort: Effort,
    /// Tick-hours worked at this workplace this cycle.
    pub cycle_tick_hours: u32,
}

/// A worker and their position.
#[derive(Clone, Copy, Debug, PartialEq, Eq)]
pub struct Worker {
    pub citizen: CitizenId,
    pub assignment: Assignment,
}

/// A production unit owned by an org.
#[derive(Clone, Debug)]
pub struct Workplace {
    pub id: WorkplaceId,
    pub kind: WorkplaceKind,
    pub org: OrgId,
    pub slot: Option<SlotId>,
    pub machines: u32,
    /// Its workers, in citizen id order.
    pub workers: Vec<Worker>,
    /// Steps the householder manager's wage board has taken.
    pub wage_step: i32,
}

/// Who owns a dwelling.
#[derive(Clone, Copy, Debug, PartialEq, Eq, Structural)]
pub enum Owner {
    Citizen(CitizenId),
    Org(OrgId),
    Society,
}

/// A dwelling asset.
#[derive(Clone, Copy, Debug, PartialEq, Eq)]
pub struct Dwelling {
    pub id: DwellingId,
    pub owner: Owner,
    pub occupant: Option<CitizenId>,
    pub lease: Option<ContractId>,
    pub built_tick: Tick,
}

/// Pay under an employment contract.
#[derive(Clone, Copy, Debug, PartialEq, Eq, Structural)]
pub enum Pay {
    Hourly(Money),
    PieceRate(Money),
}

/// What a lease lets.
#[derive(Clone, Copy, Debug, PartialEq, Eq, Structural)]
pub enum LeaseAsset {
    Dwelling(DwellingId),
}

/// What a loan is secured on.
#[derive(Clone, Copy, Debug, PartialEq, Eq, Structural)]
pub enum Collateral {
    Dwelling(DwellingId),
    Shares(OrgId, u64),
}

/// Where a contract stands.
#[derive(Clone, Copy, Debug, PartialEq, Eq, Structural)]
pub enum ContractStatus {
    Active,
    Suspended,
    Ended,
}

/// The terms of a contract.
#[derive(Clone, Copy, Debug, PartialEq, Eq)]
pub enum ContractBody {
    Employment { org: OrgId, workplace: WorkplaceId, pay: Pay, max_hours: u8, notice_cycles: u32 },
    Lease { asset: LeaseAsset, rent_per_cycle: Money, missed_cycles: u32 },
    Credit {
        principal: Money,
        rate_per_cycle_bp: u32,
        installment: Money,
        installments_left: u32,
        collateral: Option<Collateral>,
        missed: bool,
    },
    Pledge { org: Option<OrgId>, hours: Option<u8> },
}

/// A contract between two parties.
#[derive(Clone, Copy, Debug, PartialEq, Eq)]
pub struct Contract {
    pub id: ContractId,
    /// (employer, worker), (owner, tenant), (lender, borrower), (citizen, org).
    pub parties: (Party, Party),
    pub created_tick: Tick,
    pub term_cycles: Option<u32>,
    pub status: ContractStatus,
    pub body: ContractBody,
}

/// What a sale offer sells.
#[derive(Clone, Copy, Debug, PartialEq, Eq, Structural)]
pub enum SaleAsset {
    Good(Good, u32),
    Shares(OrgId, u64),
    Dwelling(DwellingId),
}

/// What a sale offer asks.
#[derive(Clone, Copy, Debug, PartialEq, Eq, Structural)]
pub enum Price {
    Money(Money),
    Good(Good, u32),
}

/// The terms of a notice-board offer.
#[derive(Clone, Copy, Debug, PartialEq, Eq)]
pub enum OfferBody {
    Sale { asset: SaleAsset, price: Price, to: Option<Party> },
    Wanted { good: Good, qty: u32, max_price: Money },
    Employment {
        org: OrgId,
        workplace: WorkplaceId,
        pay: Pay,
        max_hours: u8,
        term_cycles: Option<u32>,
        notice_cycles: u32,
        places: u32,
    },
    Lease { asset: LeaseAsset, rent_per_cycle: Money, term_cycles: Option<u32> },
    Credit {
        to: Option<Party>,
        principal: Money,
        rate_per_cycle_bp: u32,
        term_cycles: u32,
        collateral: Option<Collateral>,
    },
    Membership { org: OrgId, citizen: CitizenId },
    BankLoan { org: OrgId, principal: Money, term_cycles: u32 },
}

/// A notice-board offer.
#[derive(Clone, Copy, Debug, PartialEq, Eq)]
pub struct Offer {
    pub id: OfferId,
    pub by: Party,
    pub created_tick: Tick,
    pub body: OfferBody,
}

/// What an order book trades.
#[derive(Clone, Copy, Debug, PartialEq, Eq, Structural)]
pub enum Instrument {
    Good(Good),
    Share(OrgId),
}

/// Buy or sell.
#[derive(Clone, Copy, Debug, PartialEq, Eq, Structural)]
pub enum Side {
    Bid,
    Ask,
}

/// Whether an order was placed by hand or by a standing plan.
#[derive(Clone, Copy, Debug, PartialEq, Eq, Structural)]
pub enum OrderSource {
    Manual,
    Standing,
}

/// An order on a book.
#[derive(Clone, Copy, Debug, PartialEq, Eq)]
pub struct Order {
    pub id: OrderId,
    pub owner: Party,
    pub instrument: Instrument,
    pub side: Side,
    pub qty: u32,
    pub remaining: u32,
    pub limit_price: Money,
    pub placed_tick: Tick,
    pub expires_tick: Tick,
    pub source: OrderSource,
}

/// One instrument's continuous double auction.
#[derive(Clone, Debug)]
pub struct OrderBook {
    pub instrument: Instrument,
    /// Resting orders, in id order.
    pub orders: Vec<Order>,
    pub last_price: Option<Money>,
    pub last_trade_tick: Option<Tick>,
    pub tick_volume: u32,
    pub tick_value: Money,
}

/// What an escrow entry is held for.
#[derive(Clone, Copy, Debug, PartialEq, Eq, Structural)]
pub enum EscrowKey {
    Offer(OfferId),
    Order(OrderId),
    Contract(ContractId),
}

/// Money or goods held in escrow.
#[derive(Clone, Copy, Debug, PartialEq, Eq)]
pub struct Escrowed {
    pub key: EscrowKey,
    pub asset: Asset,
}

/// Shares held in escrow.
#[derive(Clone, Copy, Debug, PartialEq, Eq)]
pub struct SharesEscrowed {
    pub key: EscrowKey,
    pub org: OrgId,
    pub qty: u64,
}

/// A draw request filed with the Common Store this tick.
#[derive(Clone, Copy, Debug, PartialEq, Eq)]
pub struct StoreRequest {
    pub citizen: CitizenId,
    pub good: Good,
    pub qty: u32,
    pub tick: Tick,
}

/// The Common Store of a moneyless society.
#[derive(Clone, Debug)]
pub struct Store {
    pub stock: GoodCounts,
    pub requests: Vec<StoreRequest>,
}

/// A purchase request filed with the state store this tick.
#[derive(Clone, Copy, Debug, PartialEq, Eq)]
pub struct StateRequest {
    pub citizen: CitizenId,
    pub good: Good,
    pub qty: u32,
    pub tick: Tick,
}

/// Units a citizen has bought under ration cards this cycle.
#[derive(Clone, Copy, Debug, PartialEq, Eq)]
pub struct Issued {
    pub citizen: CitizenId,
    pub goods: GoodCounts,
}

/// The state's stock and till in an administered society.
#[derive(Clone, Debug)]
pub struct StateStock {
    pub stock: GoodCounts,
    pub till: Money,
    pub requests: Vec<StateRequest>,
    pub issued_this_cycle: Vec<Issued>,
}

/// A land slot for a slot-limited workplace kind.
#[derive(Clone, Copy, Debug, PartialEq, Eq)]
pub struct Slot {
    pub id: SlotId,
    pub kind: WorkplaceKind,
    pub workplace: Option<WorkplaceId>,
}

/// The society's land.
#[derive(Clone, Debug)]
pub struct LandRegistry {
    /// Slots, in id order.
    pub slots: Vec<Slot>,
    /// Which kinds are slot-limited.
    pub limited: PerKind<bool>,
}

/// An assembly ballot.
#[derive(Clone, Copy, Debug, PartialEq, Eq, Structural)]
pub enum Ballot {
    Yes,
    No,
    Abstain,
}

/// What a citizen's missing ballots default to.
#[derive(Clone, Copy, Debug, PartialEq, Eq, Structural)]
pub enum VoteDefault {
    NoDefault,
    Abstain,
    /// The ballot the followed citizen cast.
    Follow(CitizenId),
}

/// What a proposal decides. An admission names its org and candidate; the
/// payloads of the other kinds are not held by this model.
#[derive(Clone, Copy, Debug, PartialEq, Eq, Structural)]
pub enum ProposalKind {
    Admission { org: OrgId, citizen: CitizenId },
    PolicyChange,
    Resolution,
    Election,
    Recall,
    Honor,
    Disbursement,
}

/// A citizen's ballot on a proposal.
#[derive(Clone, Copy, Debug, PartialEq, Eq)]
pub struct Vote {
    pub citizen: CitizenId,
    pub ballot: Ballot,
}

/// An open proposal.
#[derive(Clone, Debug)]
pub struct Proposal {
    pub id: ProposalId,
    pub by: CitizenId,
    pub kind: ProposalKind,
    /// Ballots cast so far, one per citizen.
    pub ballots: Vec<Vote>,
}

/// A seat held in an office.
#[derive(Clone, Copy, Debug, PartialEq, Eq)]
pub struct Holding {
    pub citizen: CitizenId,
    pub term_ends_cycle: Cycle,
}

/// The seats of one office.
#[derive(Clone, Debug)]
pub struct Seats {
    pub kind: OfficeKind,
    pub holders: Vec<Holding>,
}

/// Past terms a citizen has served in an office.
#[derive(Clone, Copy, Debug, PartialEq, Eq)]
pub struct OfficeRecord {
    pub citizen: CitizenId,
    pub kind: OfficeKind,
    pub terms: u32,
}

/// The society's offices.
#[derive(Clone, Debug)]
pub struct Offices {
    pub holders: Vec<Seats>,
    pub records: Vec<OfficeRecord>,
}

/// A citizen's approval ballot in an election.
#[derive(Clone, Debug)]
pub struct Approval {
    pub voter: CitizenId,
    pub approves: Vec<CitizenId>,
}

/// An open election for an office.
#[derive(Clone, Debug)]
pub struct Election {
    pub office: OfficeKind,
    pub candidates: Vec<CitizenId>,
    pub approvals: Vec<Approval>,
}

/// The whole state of a society.
#[derive(Clone, Debug)]
pub struct World {
    pub meta: Meta,
    pub params: Params,
    pub constitution: Constitution,
    pub policy: Policy,
    pub citizens: Vec<Citizen>,
    pub orgs: Vec<Org>,
    pub workplaces: Vec<Workplace>,
    pub dwellings: Vec<Dwelling>,
    pub contracts: Vec<Contract>,
    pub offers: Vec<Offer>,
    pub books: Vec<OrderBook>,
    pub escrow: Vec<Escrowed>,
    pub share_escrow: Vec<SharesEscrowed>,
    pub store: Option<Store>,
    pub state_stock: Option<StateStock>,
    /// The tax treasury.
    pub treasury: Money,
    pub ledger_meta: LedgerMeta,
    pub next: NextIds,
    pub land: LandRegistry,
    pub proposals: Vec<Proposal>,
    pub offices: Offices,
}

impl Keyed for Citizen {
    open spec fn key_of(&self) -> u32 {
        self.id.0
    }

    fn key(&self) -> (k: u32) {
        self.id.0
    }
}

impl Keyed for Org {
    open spec fn key_of(&self) -> u32 {
        self.id.0
    }

    fn key(&self) -> (k: u32) {
        self.id.0
    }
}

impl Keyed for Workplace {
    open spec fn key_of(&self) -> u32 {
        self.id.0
    }

    fn key(&self) -> (k: u32) {
        self.id.0
    }
}

impl Keyed for Dwelling {
    open spec fn key_of(&self) -> u32 {
        self.id.0
    }

    fn key(&self) -> (k: u32) {
        self.id.0
    }
}

impl Keyed for Contract {
    open spec fn key_of(&self) -> u32 {
        self.id.0
    }

    fn key(&self) -> (k: u32) {
        self.id.0
    }
}

impl Keyed for Offer {
    open spec fn key_of(&self) -> u32 {
        self.id.0
    }

    fn key(&self) -> (k: u32) {
        self.id.0
    }
}

impl Keyed for Order {
    open spec fn key_of(&self) -> u32 {
        self.id.0
    }

    fn key(&self) -> (k: u32) {
        self.id.0
    }
}

impl Keyed for Proposal {
    open spec fn key_of(&self) -> u32 {
        self.id.0
    }

    fn key(&self) -> (k: u32) {
        self.id.0
    }
}

impl Keyed for CitizenId {
    open spec fn key_of(&self) -> u32 {
        self.0
    }

    fn key(&self) -> (k: u32) {
        self.0
    }
}

impl Keyed for ContractId {
    open spec fn key_of(&self) -> u32 {
        self.0
    }

    fn key(&self) -> (k: u32) {
        self.0
    }
}

impl Keyed for Slot {
    open spec fn key_of(&self) -> u32 {
        self.id.0
    }

    fn key(&self) -> (k: u32) {
        self.id.0
    }
}

/// Workers in strictly increasing citizen order: each citizen once.
pub open spec fn workers_increasing(s: Seq<Worker>) -> bool {
    forall|i: int, j: int| 0 <= i < j < s.len() ==> (#[trigger] s[i]).citizen.0 < (#[trigger] s[j]).citizen.0
}

/// An org's lists as they are kept: members and employment contracts each
/// once in id order, workplaces each once.
pub open spec fn org_lists_ok(o: Org) -> bool {
    &&& ids_increasing(o.members@)
    &&& ids_increasing(o.employees@)
    &&& o.workplaces@.no_duplicates()
}

/// A workplace's workers each once, in citizen order.
pub open spec fn workers_ok(x: Workplace) -> bool {
    workers_increasing(x.workers@)
}

impl World {
    /// The tables are in strictly increasing id order, each org's and each
    /// workplace's lists are kept in order with no entry twice, and a cycle
    /// has ticks.
    pub open spec fn wf(&self) -> bool {
        &&& ids_increasing(self.citizens@)
        &&& ids_increasing(self.orgs@)
        &&& ids_increasing(self.workplaces@)
        &&& ids_increasing(self.dwellings@)
        &&& ids_increasing(self.contracts@)
        &&& ids_increasing(self.offers@)
        &&& ids_increasing(self.proposals@)
        &&& ids_increasing(self.land.slots@)
        &&& self.params.time.ticks_per_cycle > 0
        &&& forall|i: int| 0 <= i < self.orgs@.len() ==> #[trigger] org_lists_ok(self.orgs@[i])
        &&& forall|i: int| 0 <= i < self.workplaces@.len() ==> #[trigger] workers_ok(self.workplaces@[i])
    }

    /// The cycle a tick falls in.
    pub open spec fn spec_cycle_of(&self, tick: Tick) -> int {
        tick as int / self.params.time.ticks_per_cycle as int
    }

    /// `self` is the fresh society that a preset builds: no citizens, orgs or
    /// stock, the preset's land cut into free slots, a Common Store where
    /// pricing is `NoPricing` and a state stock where it is administered.
    pub open spec fn created(self, society_id: u64, seed: u64, preset: Preset) -> bool {
        let w = self;
        &&& w.wf()
        &&& w.meta.society_id == society_id
        &&& w.meta.seed == seed
        &&& w.meta.preset@ == preset.name@
        &&& w.meta.epoch == 0
        &&& w.meta.tick == 0
        &&& w.meta.epoch_ended is None
        &&& w.meta.low_population_cycles == 0
        &&& w.params == preset.params
        &&& same_constitution(w.constitution, preset.constitution)
        &&& same_policy(w.policy, preset.policy)
        &&& w.citizens@.len() == 0
        &&& w.orgs@.len() == 0
        &&& w.workplaces@.len() == 0
        &&& w.dwellings@.len() == 0
        &&& w.contracts@.len() == 0
        &&& w.offers@.len() == 0
        &&& w.books@.len() == 0
        &&& w.escrow@.len() == 0
        &&& w.share_escrow@.len() == 0
        &&& w.proposals@.len() == 0
        &&& w.treasury.0 == 0
        &&& w.ledger_meta == LedgerMeta::spec_empty()
        &&& w.next.citizen.0 == 0 && w.next.org.0 == 0 && w.next.workplace.0 == 0 && w.next.dwelling.0 == 0
        &&& w.next.contract.0 == 0 && w.next.offer.0 == 0 && w.next.order.0 == 0 && w.next.proposal.0 == 0
        &&& w.store is Some <==> preset.constitution.pricing == Pricing::NoPricing
        &&& w.store matches Some(st) ==> st.stock == PerGood::<u32>::spec_filled(0) && st.requests@.len() == 0
        &&& w.state_stock is Some <==> preset.constitution.pricing == Pricing::Administered
        &&& w.state_stock matches Some(st) ==> st.stock == PerGood::<u32>::spec_filled(0) && st.till.0 == 0 && st.requests@.len() == 0 && st.issued_this_cycle@.len() == 0
        &&& w.land.slots@.len() == total_slots(preset.params.land)
        &&& forall|i: int| 0 <= i < w.land.slots@.len() ==> (#[trigger] w.land.slots@[i]).workplace is None
        &&& forall|k: WorkplaceKind| #[trigger] w.land.limited.spec_get(k) == preset.params.land.spec_get(k) is Some
    }

    /// A fresh society built from a preset: no citizens, orgs or stock, the
    /// preset's land cut into free slots, a Common Store where pricing is
    /// `NoPricing` and a state stock where it is administered.
    pub fn new(society_id: u64, seed: u64, preset: &Preset) -> (w: World)
        requires
            preset.params.time.ticks_per_cycle > 0,
            total_slots(preset.params.land) <= u32::MAX,
        ensures
            w.created(society_id, seed, *preset),
    {
        let params = preset.params;
        let (slots, limited) = cut_land(params.land);
        let store = if preset.constitution.pricing == Pricing::NoPricing {
            Some(Store { stock: PerGood::filled(0), requests: Vec::new() })
        } else {
            None
        };
        let state_stock = if preset.constitution.pricing == Pricing::Administered {
            Some(StateStock { stock: PerGood::filled(0), till: Money(0), requests: Vec::new(), issued_this_cycle: Vec::new() })
        } else {
            None
        };
        World {
            meta: Meta {
                society_id,
                seed,
                preset: preset.name.clone(),
                epoch: 0,
                tick: 0,
                epoch_ended: None,
                low_population_cycles: 0,
            },
            params,
            constitution: copy_constitution(&preset.constitution),
            policy: copy_policy(&preset.policy),
            citizens: Vec::new(),
            orgs: Vec::new(),
            workplaces: Vec::new(),
            dwellings: Vec::new(),
            contracts: Vec::new(),
            offers: Vec::new(),
            books: Vec::new(),
            escrow: Vec::new(),
            share_escrow: Vec::new(),
            store,
            state_stock,
            treasury: Money(0),
            ledger_meta: LedgerMeta::empty(),
            next: NextIds {
                citizen: CitizenId(0),
                org: OrgId(0),
                workplace: WorkplaceId(0),
                dwelling: DwellingId(0),
                contract: ContractId(0),
                offer: OfferId(0),
                order: OrderId(0),
                proposal: ProposalId(0),
            },
            land: LandRegistry { slots, limited },
            proposals: Vec::new(),
            offices: Offices { holders: Vec::new(), records: Vec::new() },
        }
    }

    /// The cycle a tick falls in.
    pub fn cycle_of(&self, tick: Tick) -> (c: Cycle)
        requires
            self.params.time.ticks_per_cycle > 0,
        ensures
            c == self.spec_cycle_of(tick),
    {
        tick / self.params.time.ticks_per_cycle
    }
}

/// Two constitutions read alike.
pub open spec fn same_constitution(a: Constitution, b: Constitution) -> bool {
    &&& a.ownership == b.ownership
    &&& a.pricing == b.pricing
    &&& a.compensation == b.compensation
    &&& a.labor == b.labor
    &&& a.capital == b.capital
    &&& a.redistribution == b.redistribution
    &&& a.monitoring == b.monitoring
    &&& a.governance == b.governance
    &&& a.contracts@ == b.contracts@
    &&& a.org_kinds@ == b.org_kinds@
    &&& a.communication@ == b.communication@
    &&& a.offices@ == b.offices@
    &&& a.proposal_kinds@ == b.proposal_kinds@
    &&& a.proposers == b.proposers
}

/// Two policies read alike.
pub open spec fn same_policy(a: Policy, b: Policy) -> bool {
    &&& a.monitoring == b.monitoring
    &&& a.work_norm_hours == b.work_norm_hours
    &&& a.rationing == b.rationing
    &&& a.ratchet == b.ratchet
    &&& a.price_list == b.price_list
    &&& (a.wage_grades is Some <==> b.wage_grades is Some)
    &&& (a.wage_grades is Some ==> a.wage_grades->0@ == b.wage_grades->0@)
    &&& a.ration_caps == b.ration_caps
    &&& a.minimum_food_ration == b.minimum_food_ration
    &&& a.need_floor_food == b.need_floor_food
    &&& a.minimum_wage == b.minimum_wage
    &&& a.public_dwellings == b.public_dwellings
    &&& a.public_bank == b.public_bank
    &&& a.lending_rule == b.lending_rule
}

/// A copy of a list.
pub fn copy_list<T: Copy>(v: &Vec<T>) -> (r: Vec<T>)
    ensures
        r@ == v@,
{
    let mut r: Vec<T> = Vec::new();
    let mut i: usize = 0;
    while i < v.len()
        invariant
            i <= v@.len(),
            r@ == v@.take(i as int),
        decreases v.len() - i,
    {
        r.push(v[i]);
        proof {
            assert(v@.take(i + 1) =~= v@.take(i as int).push(v@[i as int]));
        }
        i = i + 1;
    }
    proof {
        assert(v@.take(v@.len() as int) =~= v@);
    }
    r
}

/// A copy of a constitution.
pub fn copy_constitution(c: &Constitution) -> (r: Constitution)
    ensures
        same_constitution(r, *c),
{
    Constitution {
        ownership: c.ownership,
        pricing: c.pricing,
        compensation: c.compensation,
        labor: c.labor,
        capital: c.capital,
        redistribution: c.redistribution,
        monitoring: c.monitoring,
        governance: c.governance,
        contracts: copy_list(&c.contracts),
        org_kinds: copy_list(&c.org_kinds),
        communication: copy_list(&c.communication),
        offices: copy_list(&c.offices),
        proposal_kinds: copy_list(&c.proposal_kinds),
        proposers: c.proposers,
    }
}

/// A copy of a policy.
pub fn copy_policy(p: &Policy) -> (r: Policy)
    ensures
        same_policy(r, *p),
{
    let wage_grades = match &p.wage_grades {
        Some(g) => Some(copy_list(g)),
        None => None,
    };
    Policy {
        monitoring: p.monitoring,
        work_norm_hours: p.work_norm_hours,
        rationing: p.rationing,
        ratchet: p.ratchet,
        price_list: p.price_list,
        wage_grades,
        ration_caps: p.ration_caps,
        minimum_food_ration: p.minimum_food_ration,
        need_floor_food: p.need_floor_food,
        minimum_wage: p.minimum_wage,
        public_dwellings: p.public_dwellings,
        public_bank: p.public_bank,
        lending_rule: p.lending_rule,
    }
}

/// The number of slots the land settings make.
pub open spec fn total_slots(land: PerKind<Option<u32>>) -> int {
    slots_of(land.farm) + slots_of(land.mine) + slots_of(land.foundry) + slots_of(land.mill)
        + slots_of(land.workshop) + slots_of(land.machine_shop) + slots_of(land.builder)
}

/// The slots one kind's setting makes.
pub open spec fn slots_of(n: Option<u32>) -> int {
    match n {
        Some(n) => n as int,
        None => 0,
    }
}

/// Add `n` free slots of `kind`, numbered on from the last.
fn add_slots(slots: &mut Vec<Slot>, kind: WorkplaceKind, n: Option<u32>)
    requires
        forall|i: int| 0 <= i < old(slots)@.len() ==> (#[trigger] old(slots)@[i]).id.0 == i,
        forall|i: int| 0 <= i < old(slots)@.len() ==> (#[trigger] old(slots)@[i]).workplace is None,
        old(slots)@.len() + slots_of(n) <= u32::MAX,
    ensures
        forall|i: int| 0 <= i < final(slots)@.len() ==> (#[trigger] final(slots)@[i]).id.0 == i,
        forall|i: int| 0 <= i < final(slots)@.len() ==> (#[trigger] final(slots)@[i]).workplace is None,
        forall|i: int| 0 <= i < old(slots)@.len() ==> final(slots)@[i] == old(slots)@[i],
        forall|i: int|
            old(slots)@.len() <= i < final(slots)@.len() ==> (#[trigger] final(slots)@[i]).kind == kind,
        final(slots)@.len() == old(slots)@.len() + slots_of(n),
{
    let count = match n {
        Some(c) => c,
        None => 0,
    };
    let mut k: u32 = 0;
    while k < count
        invariant
            k <= count,
            count == slots_of(n),
            forall|i: int| 0 <= i < slots@.len() ==> (#[trigger] slots@[i]).id.0 == i,
            forall|i: int| 0 <= i < slots@.len() ==> (#[trigger] slots@[i]).workplace is None,
            forall|i: int| 0 <= i < old(slots)@.len() ==> slots@[i] == old(slots)@[i],
            forall|i: int| old(slots)@.len() <= i < slots@.len() ==> (#[trigger] slots@[i]).kind == kind,
            slots@.len() == old(slots)@.len() + k,
            old(slots)@.len() + slots_of(n) <= u32::MAX,
        decreases count - k,
    {
        let id = slots.len() as u32;
        slots.push(Slot { id: SlotId(id), kind, workplace: None });
        k = k + 1;
    }
}

/// Ids equal to positions are strictly increasing.
proof fn lemma_dense_ids_increasing(slots: Seq<Slot>)
    requires
        forall|i: int| 0 <= i < slots.len() ==> (#[trigger] slots[i]).id.0 == i,
    ensures
        ids_increasing(slots),
{
}

/// Where a kind's slots start when the land is cut kind by kind in
/// declaration order.
pub open spec fn kind_offset(land: PerKind<Option<u32>>, k: WorkplaceKind) -> int {
    let farm = slots_of(land.farm);
    let mine = farm + slots_of(land.mine);
    let foundry = mine + slots_of(land.foundry);
    let mill = foundry + slots_of(land.mill);
    let workshop = mill + slots_of(land.workshop);
    let machine_shop = workshop + slots_of(land.machine_shop);
    match k {
        WorkplaceKind::Farm => 0,
        WorkplaceKind::Mine => farm,
        WorkplaceKind::Foundry => mine,
        WorkplaceKind::Mill => foundry,
        WorkplaceKind::Workshop => mill,
        WorkplaceKind::MachineShop => workshop,
        WorkplaceKind::Builder => machine_shop,
    }
}

/// The land cut into free slots, kind by kind in declaration order, and
/// which kinds are slot-limited.
pub fn cut_land(land: PerKind<Option<u32>>) -> (r: (Vec<Slot>, PerKind<bool>))
    requires
        total_slots(land) <= u32::MAX,
    ensures
        forall|i: int|
            0 <= i < r.0@.len() ==> kind_offset(land, (#[trigger] r.0@[i]).kind) <= i < kind_offset(land, r.0@[i].kind)
                + slots_of(land.spec_get(r.0@[i].kind)),
        ids_increasing(r.0@),
        r.0@.len() == total_slots(land),
        forall|i: int| 0 <= i < r.0@.len() ==> (#[trigger] r.0@[i]).id.0 == i,
        forall|i: int| 0 <= i < r.0@.len() ==> (#[trigger] r.0@[i]).workplace is None,
        forall|i: int| 0 <= i < r.0@.len() ==> land.spec_get((#[trigger] r.0@[i]).kind) is Some,
        forall|k: WorkplaceKind| #[trigger] r.1.spec_get(k) == land.spec_get(k) is Some,
{
    let mut slots: Vec<Slot> = Vec::new();
    add_slots(&mut slots, WorkplaceKind::Farm, land.farm);
    add_slots(&mut slots, WorkplaceKind::Mine, land.mine);
    add_slots(&mut slots, WorkplaceKind::Foundry, land.foundry);
    add_slots(&mut slots, WorkplaceKind::Mill, land.mill);
    add_slots(&mut slots, WorkplaceKind::Workshop, land.workshop);
    add_slots(&mut slots, WorkplaceKind::MachineShop, land.machine_shop);
    add_slots(&mut slots, WorkplaceKind::Builder, land.builder);
    proof {
        lemma_dense_ids_increasing(slots@);
        assert forall|i: int| 0 <= i < slots@.len() implies land.spec_get((#[trigger] slots@[i]).kind) is Some by {
            let k = slots@[i].kind;
            assert(slots_of(land.spec_get(k)) > 0 || land.spec_get(k) is Some);
        }
    }
    let limited = PerKind {
        farm: land.farm.is_some(),
        mine: land.mine.is_some(),
        foundry: land.foundry.is_some(),
        mill: land.mill.is_some(),
        workshop: land.workshop.is_some(),
        machine_shop: land.machine_shop.is_some(),
        builder: land.builder.is_some(),
    };
    (slots, limited)
}

impl ProposalKind {
    /// The kind of proposal, as a constitution names it.
    pub open spec fn spec_tag(self) -> crate::constitution::ProposalKindTag {
        match self {
            ProposalKind::Admission { .. } => crate::constitution::ProposalKindTag::Admission,
            ProposalKind::PolicyChange => crate::constitution::ProposalKindTag::PolicyChange,
            ProposalKind::Resolution => crate::constitution::ProposalKindTag::Resolution,
            ProposalKind::Election => crate::constitution::ProposalKindTag::Election,
            ProposalKind::Recall => crate::constitution::ProposalKindTag::Recall,
            ProposalKind::Honor => crate::constitution::ProposalKindTag::Honor,
            ProposalKind::Disbursement => crate::constitution::ProposalKindTag::Disbursement,
        }
    }

    /// The kind of proposal, as a constitution names it.
    pub fn tag(&self) -> (t: crate::constitution::ProposalKindTag)
        ensures
            t == self.spec_tag(),
    {
        match self {
            ProposalKind::Admission { .. } => crate::constitution::ProposalKindTag::Admission,
            ProposalKind::PolicyChange => crate::constitution::ProposalKindTag::PolicyChange,
            ProposalKind::Resolution => crate::constitution::ProposalKindTag::Resolution,
            ProposalKind::Election => crate::constitution::ProposalKindTag::Election,
            ProposalKind::Recall => crate::constitution::ProposalKindTag::Recall,
            ProposalKind::Honor => crate::constitution::ProposalKindTag::Honor,
            ProposalKind::Disbursement => crate::constitution::ProposalKindTag::Disbursement,
        }
    }
}

} // verus!
