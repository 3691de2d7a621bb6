//! The records the society's HTTP interface exchanges: requests it accepts
//! and views it answers with, in plain values (money in cents, ids as numbers),
//! and the conversions from the engine's types that they use.
use crate::command::RejectCode;
use crate::ids::{CitizenId, DwellingId, OrgId, SlotId, WorkplaceId};
use crate::kinds::{Effort, Good, OrgKind, WorkplaceKind};
use crate::ledger::{Asset, Party};
use crate::money::Money;
use crate::world::{Ballot, Collateral, Instrument, LeaseAsset, Pay, Price, ProposalKind, SaleAsset};
use crate::amount::{all_digits, chars_of, decimal, lemma_digits, read_digits};
use crate::money::{digits, push_digits};
use vstd::prelude::*;

verus! {

/// Money in cents, as the interface carries it.
pub type Cents = i64;

/// Money as cents.
pub fn cents(m: Money) -> (c: Cents)
    ensures
        c == m.0,
{
    m.0
}

/// A citizen id from its number.
pub fn citizen_id(n: u32) -> (id: CitizenId)
    ensures
        id.0 == n,
{
    CitizenId(n)
}

/// An org id from its number.
pub fn org_id(n: u32) -> (id: OrgId)
    ensures
        id.0 == n,
{
    OrgId(n)
}

/// A workplace id from its number.
pub fn workplace_id(n: u32) -> (id: WorkplaceId)
    ensures
        id.0 == n,
{
    WorkplaceId(n)
}

/// A slot id from its number.
pub fn slot_id(n: u32) -> (id: SlotId)
    ensures
        id.0 == n,
{
    SlotId(n)
}

/// A dwelling id from its number.
pub fn dwelling_id(n: u32) -> (id: DwellingId)
    ensures
        id.0 == n,
{
    DwellingId(n)
}


#[derive(Clone, Debug)]
pub struct HeadlineView {
    /// The event the headline was written from (`/explain/{seq}`).
    pub seq: i64,
    pub ordinal: i32,
    pub cycle: u32,
    pub tick: u32,
    pub text: String,
}

/// One cycle's edition of the Chronicle.
#[derive(Clone, Debug)]
pub struct ChronicleView {
    pub clock: Clock,
    /// The cycle shown (1-based); the current one by default.
    pub cycle: u32,
    pub headlines: Vec<HeadlineView>,
}


#[derive(Clone, Debug)]
pub struct PostMessage {
    pub body: String,
}

/// Where the society's clock stands. Ticks, cycles and epochs are 1-based
/// for display (TDD 5.1); `engine_tick` is the engine's own 0-based count.
#[derive(Clone, Debug)]
pub struct Clock {
    pub epoch: u32,
    pub cycle: u32,
    /// From 1 to `ticks_per_cycle`.
    pub tick: u32,
    pub ticks_per_cycle: u32,
    pub engine_tick: u32,
    pub epoch_ended: bool,
}

/// RFC 9457 problem details; `code` carries the engine's `RejectCode` when
/// the engine refused a command.
#[derive(Clone, Debug)]
pub struct Problem {
    pub type_: String,
    pub title: String,
    pub status: u16,
    pub detail: Option<String>,
    pub code: Option<RejectCode>,
}


#[derive(Clone, Debug)]
pub struct MagicLinkRequest {
    pub email: String,
    /// Required the first time an email signs in (Phase 1: invite only).
    pub invite_code: Option<String>,
}


#[derive(Clone, Debug)]
pub struct MagicLinkSent {
    pub sent: bool,
}


#[derive(Clone, Debug)]
pub struct Citizenship {
    pub society_id: i64,
    pub citizen_id: u32,
    pub handle: String,
}


#[derive(Clone, Debug)]
pub struct NewApiKey {
    pub society_id: i64,
    pub label: String,
}

/// The key is shown once; only its hash is stored.
#[derive(Clone, Debug)]
pub struct ApiKeyCreated {
    pub id: i64,
    pub label: String,
    pub prefix: String,
    pub key: String,
}


#[derive(Clone, Debug)]
pub struct RateLimitView {
    pub per_second: u32,
    pub burst: u32,
}


#[derive(Clone, Debug)]
pub struct Lexicon {
    pub clock: Clock,
    pub preset: String,
    pub entries: Vec<(String, String)>,
}

/// The Welcome Brief (GDD 9.4), Markdown in the society's own voice.
#[derive(Clone, Debug)]
pub struct Welcome {
    pub clock: Clock,
    pub markdown: String,
}


#[derive(Clone, Debug)]
pub struct JoinRequest {
    pub handle: String,
}


#[derive(Clone, Debug)]
pub struct Joined {
    pub clock: Clock,
    pub citizen_id: u32,
    pub handle: String,
    /// `false` when the account was already a citizen (join is idempotent).
    pub created: bool,
}


#[derive(Clone, Debug)]
pub struct Health {
    pub ok: bool,
    pub societies: usize,
}


#[derive(Clone, Debug)]
pub struct AllocationView {
    pub workplace: u32,
    pub org: u32,
    pub org_name: String,
    pub kind: WorkplaceKind,
    pub hours: u8,
    pub effort: Effort,
}

/// A Chronicle headline (S1.5 fills these; empty until then).
#[derive(Clone, Debug)]
pub struct Headline {
    pub seq: i64,
    pub tick: u32,
    pub text: String,
}


#[derive(Clone, Debug)]
pub struct AllocationInput {
    pub workplace: u32,
    pub hours: u8,
    pub effort: Effort,
}


#[derive(Clone, Debug)]
pub struct SetLaborRequest {
    pub allocations: Vec<AllocationInput>,
}


#[derive(Clone, Debug)]
pub struct BookSummary {
    /// `food`, `wares`, ... or `share:<org id>`.
    pub instrument: String,
    pub last_price: Option<Cents>,
    pub best_bid: Option<Cents>,
    pub best_ask: Option<Cents>,
    pub bid_depth: u32,
    pub ask_depth: u32,
}


#[derive(Clone, Debug)]
pub struct Level {
    pub price: Cents,
    pub qty: u32,
}


#[derive(Clone, Debug)]
pub struct OrderView {
    pub id: u32,
    pub side: String,
    pub qty: u32,
    pub remaining: u32,
    pub limit_price: Cents,
    pub placed_tick: u32,
    pub expires_tick: u32,
    pub source: String,
}


#[derive(Clone, Debug)]
pub struct PlaceOrderRequest {
    pub instrument: String,
    /// `bid` or `ask`.
    pub side: String,
    pub qty: u32,
    pub limit_price: Cents,
    pub expires_tick: Option<u32>,
    /// A manager placing for an org.
    pub on_behalf_of: Option<u32>,
}


#[derive(Clone, Debug)]
pub struct PricePoint {
    pub tick: u32,
    pub instrument: String,
    pub vwap: Cents,
}


#[derive(Clone, Debug)]
pub struct PricesView {
    pub clock: Clock,
    pub window: u32,
    pub points: Vec<PricePoint>,
}

/// A payday an org could not cover: who was owed what, and when.
#[derive(Clone, Debug)]
pub struct PaymentMissedView {
    pub seq: i64,
    pub epoch: u32,
    pub cycle: u32,
    pub citizen: u32,
    pub handle: String,
    pub owed: Cents,
    pub paid: Cents,
}

/// An org that exists only in the log. `epoch` is 0-based, like `EventRef`'s.
#[derive(Clone, Debug)]
pub struct FormerOrg {
    pub id: u32,
    pub name: String,
    pub epoch: u32,
}


#[derive(Clone, Debug)]
pub struct FoundingCosts {
    /// The founding fee (zero where money does not exist).
    pub money: Cents,
    /// Materials per workplace, from the founder's pantry (or the org's inventory later).
    pub materials: u32,
}


#[derive(Clone, Debug)]
pub struct SlotSummary {
    pub total: u32,
    pub free: u32,
}


#[derive(Clone, Debug)]
pub struct FirstWorkplace {
    pub kind: WorkplaceKind,
    pub slot: Option<u32>,
}


#[derive(Clone, Debug)]
pub struct FoundOrgRequest {
    pub kind: OrgKind,
    pub name: String,
    pub first_workplace: Option<FirstWorkplace>,
}


#[derive(Clone, Debug)]
pub struct EmploymentOfferRequest {
    pub workplace: u32,
    /// `{"hourly": cents}` or `{"piece_rate": cents}`.
    pub pay: Pay,
    pub max_hours: u8,
    pub term_cycles: Option<u32>,
    pub notice_cycles: u32,
    pub places: u32,
}


#[derive(Clone, Debug)]
pub struct AddWorkplaceRequest {
    pub kind: WorkplaceKind,
    pub slot: Option<u32>,
}


#[derive(Clone, Debug)]
pub struct MachinesRequest {
    pub workplace: u32,
    pub qty: u32,
    /// `install` or `uninstall`.
    pub action: String,
}


#[derive(Clone, Debug)]
pub struct DividendRequest {
    pub per_share: Cents,
}


#[derive(Clone, Debug)]
pub struct IssueSharesRequest {
    pub qty: u64,
}


#[derive(Clone, Debug)]
pub struct AppointRequest {
    pub citizen: Option<u32>,
}


#[derive(Clone, Debug)]
pub struct MemberRequest {
    pub citizen: u32,
}

/// `POST /s/{id}/offers/sale`. Asset and price are engine shapes:
/// `{"good": ["food", 10]}`, `{"shares": [3, 20]}`, `{"dwelling": 7}`;
/// `{"money": cents}` or `{"good": ["grain", 4]}`.
#[derive(Clone, Debug)]
pub struct SaleOfferRequest {
    pub asset: SaleAsset,
    pub price: Price,
    pub to: Option<Party>,
    pub on_behalf_of: Option<u32>,
}


#[derive(Clone, Debug)]
pub struct WantedRequest {
    pub good: Good,
    pub qty: u32,
    pub max_price: Cents,
}


#[derive(Clone, Debug)]
pub struct CreditOfferRequest {
    pub to: Option<Party>,
    pub principal: Cents,
    pub rate_per_cycle_bp: u32,
    pub term_cycles: u32,
    pub collateral: Option<Collateral>,
    pub on_behalf_of: Option<u32>,
}


#[derive(Clone, Debug)]
pub struct LeaseOfferRequest {
    pub asset: LeaseAsset,
    pub rent_per_cycle: Cents,
    pub term_cycles: Option<u32>,
    pub on_behalf_of: Option<u32>,
}


#[derive(Clone, Debug)]
pub struct AcceptRequest {
    /// A manager accepting for an org (e.g. a firm taking credit).
    pub on_behalf_of: Option<u32>,
}


#[derive(Clone, Debug)]
pub struct TransferRequest {
    /// `{"citizen": id}` or `{"org": id}`.
    pub to: Party,
    /// `{"money": cents}` or `{"good": ["food", 3]}`.
    pub asset: Asset,
    pub memo: String,
    pub on_behalf_of: Option<u32>,
}


#[derive(Clone, Debug)]
pub struct FirmValuation {
    pub org: u32,
    pub name: String,
    pub book_value: Cents,
    pub shares_held: u64,
    pub shares_issued: u64,
}


#[derive(Clone, Debug)]
pub struct HouseholdersView {
    pub clock: Clock,
    /// `docs/SCRIPT.md`: the published householder script.
    pub markdown: String,
}

/// The count on a proposal (engine `Tally`): `cast` includes abstentions and
/// the ballots `vote_default` cast at the close; `quorum` is the ballots the
/// close requires against `eligible` voters (Q117). On an open proposal it is
/// the count so far.
#[derive(Clone, Debug)]
pub struct TallyView {
    pub yes: u32,
    pub no: u32,
    pub abstain: u32,
    pub cast: u32,
    pub quorum: u32,
    pub eligible: u32,
}

/// One ballot on the roll (Q135: the assembly votes openly).
#[derive(Clone, Debug)]
pub struct BallotView {
    pub citizen: u32,
    pub handle: String,
    /// `yes`, `no` or `abstain`.
    pub ballot: String,
}

/// Open a proposal before the assembly (S2.1). `text` may be empty except for
/// a resolution, which is its text.
#[derive(Clone, Debug)]
pub struct ProposeRequest {
    pub title: String,
    pub text: String,
    /// The engine's `ProposalKind` (see `ProposalView.kind`). An election
    /// cannot be moved: stand for the office instead (Q125). A disbursement
    /// goes through `POST /s/{id}/orgs/{oid}/disbursements`.
    pub kind: ProposalKind,
}

/// Cast or replace a ballot; the last one before the close counts.
#[derive(Clone, Debug)]
pub struct BallotRequest {
    /// `yes`, `no` or `abstain`.
    pub ballot: Ballot,
}

/// A member moves the org's money or goods to a citizen or an org (S2.4,
/// Q122); the members vote through the ballot route.
#[derive(Clone, Debug)]
pub struct DisbursementRequest {
    /// `{"citizen": id}` or `{"org": id}`.
    pub to: Party,
    /// `{"money": cents}` or `{"good": ["food", 3]}`.
    pub asset: Asset,
    /// The mover's case, optional.
    pub text: String,
}


#[derive(Clone, Debug)]
pub struct HolderView {
    pub citizen: u32,
    pub handle: String,
    /// The engine's 0-based cycle the term runs through; the seat empties at its end.
    pub term_ends_cycle: u32,
}


#[derive(Clone, Debug)]
pub struct CandidateView {
    pub citizen: u32,
    pub handle: String,
    /// Approval ballots naming this candidate so far.
    pub approvals: u32,
}

/// The election open for an office (S2.2, Q118): approval ballots, the top
/// `seats` win at the close.
#[derive(Clone, Debug)]
pub struct ElectionView {
    pub seats: u32,
    /// Engine 0-based cycles.
    pub opened_cycle: u32,
    pub closes_cycle: u32,
    /// In rank order: most approvals, then fewer past terms, then the lower id.
    pub candidates: Vec<CandidateView>,
    /// Approval ballots cast so far (each names any subset of the candidates).
    pub ballots_cast: u32,
    pub my_approvals: Vec<u32>,
    pub i_stand: bool,
    /// Why the caller could not stand right now, in the engine's words with
    /// its ids named; absent when they could.
    pub stand_refusal: Option<String>,
}


#[derive(Clone, Debug)]
pub struct OfficeView {
    /// `coordinator`, `planning_committee`, `legislator`, `union_steward`, `bank_board`.
    pub kind: String,
    pub seats: u32,
    pub term_cycles: u32,
    pub consecutive: bool,
    /// `majority` or `two_thirds`.
    pub recall: String,
    pub holders: Vec<HolderView>,
    pub i_hold: bool,
    pub election: Option<ElectionView>,
    /// The engine's 0-based cycle since which the office has had fewer holders than seats.
    pub short_since: Option<u32>,
}


#[derive(Clone, Debug)]
pub struct OfficesView {
    pub clock: Clock,
    pub offices: Vec<OfficeView>,
}

/// One land slot: its kind and the workplace on it, if any.
#[derive(Clone, Debug)]
pub struct SlotView {
    pub id: u32,
    pub kind: WorkplaceKind,
    pub workplace: Option<u32>,
}

/// Open a workplace of the collective on a free slot of its kind (any, when `slot` is absent).
#[derive(Clone, Debug)]
pub struct OpenWorkplaceRequest {
    pub kind: WorkplaceKind,
    pub slot: Option<u32>,
}

/// An approval ballot: any subset of the candidates, the empty set included.
#[derive(Clone, Debug)]
pub struct ApproveRequest {
    pub candidates: Vec<u32>,
}

/// One per citizen, replaced on every write, until the window closes.
#[derive(Clone, Debug)]
pub struct ClosingStatementRequest {
    pub text: String,
}

/// One good on the Store's shelves this tick (GDD 6.2), with the caller's
/// own standing toward it.
#[derive(Clone, Debug)]
pub struct StockView {
    pub good: Good,
    /// Units on the shelf now.
    pub stock: u32,
    /// Units requested this tick and not yet resolved (phase 6 resolves them).
    pub requested: u32,
    /// Citizens with a request in this tick.
    pub requesters: u32,
    /// What the caller may still draw this tick (`store::entitlement`): the
    /// units that bring the meter to full, less pantry and pending, capped by
    /// pantry room. 0 for a good the Store does not ration by need.
    pub my_entitlement: u32,
    /// The caller's request this tick, not yet served.
    pub my_pending: u32,
    /// Meter tenths one unit restores, for the goods drawn by need; `None` otherwise.
    pub meter_per_unit: Option<u32>,
    /// What each active citizen would get if the day ended now:
    /// `floor(stock / active citizens)` (GDD 6.2, Q54).
    pub share_if_shared_now: u32,
}

/// How one good fared over a whole day: what was asked, what was served.
#[derive(Clone, Debug)]
pub struct StoreDayView {
    pub good: Good,
    pub requested: u32,
    pub served: u32,
    /// `requested - served`: the units the Store could not find.
    pub short: u32,
    /// Hours in which the rationing rule had to decide (served < requested).
    pub rationed_ticks: u32,
    /// Units shared out equally at the day's end (surplus shares).
    pub shared: u32,
    /// Citizens who received a surplus share.
    pub shared_with: u32,
}

/// A position the caller holds at a workplace, with or without a contract (S2.7).
#[derive(Clone, Debug)]
pub struct PositionView {
    pub workplace: u32,
    pub org: u32,
    pub org_name: String,
    pub kind: WorkplaceKind,
    /// The employment contract, where positions come by contract; `None`
    /// for a norm position (`JoinWorkplace`, Q62).
    pub contract: Option<u32>,
}

/// A good's name on the interface: its variant in snake case.
pub open spec fn good_name(g: Good) -> Seq<char> {
    match g {
        Good::Grain => seq!['g', 'r', 'a', 'i', 'n'],
        Good::Ore => seq!['o', 'r', 'e'],
        Good::Materials => seq!['m', 'a', 't', 'e', 'r', 'i', 'a', 'l', 's'],
        Good::Food => seq!['f', 'o', 'o', 'd'],
        Good::Wares => seq!['w', 'a', 'r', 'e', 's'],
        Good::Machines => seq!['m', 'a', 'c', 'h', 'i', 'n', 'e', 's'],
    }
}

/// The prefix that names a share instrument.
pub open spec fn share_prefix() -> Seq<char> {
    seq!['s', 'h', 'a', 'r', 'e', ':']
}

/// An instrument's name: the good's name, or `share:` and the org's number.
pub open spec fn spec_instrument_name(i: Instrument) -> Seq<char> {
    match i {
        Instrument::Good(g) => good_name(g),
        Instrument::Share(org) => share_prefix() + digits(org.0 as nat),
    }
}

/// The good a name names, if any.
pub open spec fn good_named(s: Seq<char>) -> Option<Good> {
    if s == good_name(Good::Grain) {
        Some(Good::Grain)
    } else if s == good_name(Good::Ore) {
        Some(Good::Ore)
    } else if s == good_name(Good::Materials) {
        Some(Good::Materials)
    } else if s == good_name(Good::Food) {
        Some(Good::Food)
    } else if s == good_name(Good::Wares) {
        Some(Good::Wares)
    } else if s == good_name(Good::Machines) {
        Some(Good::Machines)
    } else {
        None
    }
}

/// An unsigned 32-bit number as text reads it: an optional `+` and at
/// least one digit, within range; `None` otherwise.
pub open spec fn parse_u32(t: Seq<char>) -> Option<int> {
    let rest = if t.len() > 0 && t[0] == '+' {
        t.drop_first()
    } else {
        t
    };
    if rest.len() == 0 || !all_digits(rest) || decimal(rest) > u32::MAX {
        None
    } else {
        Some(decimal(rest))
    }
}

/// The instrument a name reads as: `share:` and an org's number, or a good's name.
pub open spec fn spec_parse_instrument(s: Seq<char>) -> Option<Instrument> {
    if s.len() >= 6 && s.take(6) == share_prefix() {
        match parse_u32(s.skip(6)) {
            Some(n) => Some(Instrument::Share(OrgId(n as u32))),
            None => None,
        }
    } else {
        match good_named(s) {
            Some(g) => Some(Instrument::Good(g)),
            None => None,
        }
    }
}

/// A good's name.
fn good_name_text(g: Good) -> (s: String)
    ensures
        s@ == good_name(g),
{
    let mut s = String::new();
    match g {
        Good::Grain => {
            s.append("grain");
            proof {
                reveal_strlit("grain");
            }
        },
        Good::Ore => {
            s.append("ore");
            proof {
                reveal_strlit("ore");
            }
        },
        Good::Materials => {
            s.append("materials");
            proof {
                reveal_strlit("materials");
            }
        },
        Good::Food => {
            s.append("food");
            proof {
                reveal_strlit("food");
            }
        },
        Good::Wares => {
            s.append("wares");
            proof {
                reveal_strlit("wares");
            }
        },
        Good::Machines => {
            s.append("machines");
            proof {
                reveal_strlit("machines");
            }
        },
    }
    proof {
        assert(s@ =~= good_name(g));
    }
    s
}

/// `food` or `share:3` for an instrument.
pub fn instrument_name(i: Instrument) -> (s: String)
    ensures
        s@ == spec_instrument_name(i),
{
    match i {
        Instrument::Good(g) => good_name_text(g),
        Instrument::Share(org) => {
            let mut s = String::new();
            s.append("share:");
            proof {
                reveal_strlit("share:");
                assert(s@ =~= share_prefix());
            }
            push_digits(&mut s, org.0 as u64);
            s
        },
    }
}

/// Whether two runs of characters are the same.
fn same_chars(a: &Vec<char>, b: &Vec<char>) -> (r: bool)
    ensures
        r == (a@ == b@),
{
    if a.len() != b.len() {
        return false;
    }
    let mut k: usize = 0;
    while k < a.len()
        invariant
            k <= a@.len() == b@.len(),
            forall|j: int| 0 <= j < k ==> a@[j] == b@[j],
        decreases a@.len() - k,
    {
        if a[k] != b[k] {
            return false;
        }
        k = k + 1;
    }
    proof {
        assert(a@ =~= b@);
    }
    true
}

/// Whether the text is good `g`'s name.
fn names_good(v: &Vec<char>, g: Good) -> (r: bool)
    ensures
        r == (v@ == good_name(g)),
{
    let name = good_name_text(g);
    let n = chars_of(name.as_str());
    same_chars(v, &n)
}

/// The characters of `v` from `a` on.
fn rest_of(v: &Vec<char>, a: usize) -> (r: Vec<char>)
    requires
        a <= v@.len(),
    ensures
        r@ == v@.skip(a as int),
{
    let mut r: Vec<char> = Vec::new();
    let mut k: usize = a;
    while k < v.len()
        invariant
            a <= k <= v@.len(),
            r@ == v@.subrange(a as int, k as int),
        decreases v@.len() - k,
    {
        r.push(v[k]);
        proof {
            assert(v@.subrange(a as int, k + 1) =~= v@.subrange(a as int, k as int).push(v@[k as int]));
        }
        k = k + 1;
    }
    proof {
        assert(v@.subrange(a as int, v@.len() as int) =~= v@.skip(a as int));
    }
    r
}

/// An org's number as text reads it.
fn read_u32(t: &Vec<char>) -> (r: Option<u32>)
    ensures
        match r {
            Some(n) => parse_u32(t@) == Some(n as int),
            None => parse_u32(t@) is None,
        },
{
    let rest = if t.len() > 0 && t[0] == '+' {
        rest_of(t, 1)
    } else {
        rest_of(t, 0)
    };
    proof {
        assert(t@.skip(0) =~= t@);
        assert(t@.skip(1) =~= t@.drop_first());
    }
    if rest.len() == 0 {
        return None;
    }
    match read_digits(&rest) {
        Some(x) => {
            if x <= 0xffff_ffff {
                Some(x as u32)
            } else {
                None
            }
        },
        None => None,
    }
}

/// `food` or `share:3` to an instrument; `None` for any other text.
pub fn parse_instrument(s: &str) -> (r: Option<Instrument>)
    ensures
        r == spec_parse_instrument(s@),
{
    let v = chars_of(s);
    let mut p = String::new();
    p.append("share:");
    proof {
        reveal_strlit("share:");
        assert(p@ =~= share_prefix());
    }
    let pv = chars_of(p.as_str());
    if v.len() >= 6 {
        let head = crate::api::take_chars(&v, 6);
        if same_chars(&head, &pv) {
            let n = rest_of(&v, 6);
            return match read_u32(&n) {
                Some(x) => Some(Instrument::Share(OrgId(x))),
                None => None,
            };
        }
    }
    proof {
        assert(v@.len() >= 6 ==> v@.take(6) != share_prefix());
    }
    if names_good(&v, Good::Grain) {
        Some(Instrument::Good(Good::Grain))
    } else if names_good(&v, Good::Ore) {
        Some(Instrument::Good(Good::Ore))
    } else if names_good(&v, Good::Materials) {
        Some(Instrument::Good(Good::Materials))
    } else if names_good(&v, Good::Food) {
        Some(Instrument::Good(Good::Food))
    } else if names_good(&v, Good::Wares) {
        Some(Instrument::Good(Good::Wares))
    } else if names_good(&v, Good::Machines) {
        Some(Instrument::Good(Good::Machines))
    } else {
        None
    }
}

/// The first `n` characters of `v`.
fn take_chars(v: &Vec<char>, n: usize) -> (r: Vec<char>)
    requires
        n <= v@.len(),
    ensures
        r@ == v@.take(n as int),
{
    let mut r: Vec<char> = Vec::new();
    let mut k: usize = 0;
    while k < n
        invariant
            k <= n <= v@.len(),
            r@ == v@.take(k as int),
        decreases n - k,
    {
        r.push(v[k]);
        proof {
            assert(v@.take(k + 1) =~= v@.take(k as int).push(v@[k as int]));
        }
        k = k + 1;
    }
    r
}

/// Reading an instrument's name gives back the instrument.
pub proof fn lemma_instrument_name_round_trip(i: Instrument)
    ensures
        spec_parse_instrument(spec_instrument_name(i)) == Some(i),
{
    match i {
        Instrument::Good(g) => {
            let s = good_name(g);
            assert(s.len() < 6 || s.take(6) != share_prefix()) by {
                if s.len() >= 6 {
                    assert(s.take(6)[0] != share_prefix()[0] || s.take(6)[1] != share_prefix()[1]);
                }
            }
            assert(good_named(s) == Some(g));
        },
        Instrument::Share(org) => {
            let d = digits(org.0 as nat);
            let s = share_prefix() + d;
            lemma_digits(org.0 as nat);
            assert(s.take(6) =~= share_prefix());
            assert(s.skip(6) =~= d);
            assert(d[0] != '+');
            assert(parse_u32(d) == Some(org.0 as int));
        },
    }
}

} // verus!
