//! Share registries: who holds what in a firm, and what a holding is worth.
use crate::ids::{CitizenId, OrgId};
use crate::ledger::Party;
use crate::market::{lemma_sum_nonneg, lemma_sum_prefix_le};
use crate::money::Money;
use crate::sum::{lemma_sum_take_all, lemma_sum_take_step, seq_sum};
use crate::table::{find, first, lemma_find, lemma_first, index_of};
use crate::world::{Org, Ownership, ShareHolder, ShareHolding, World};
use crate::apply::{applied, fits_i64};
use crate::bank::{installed_at, machines_sum};
use crate::kinds::{Good, PerGood};
use crate::market::{last_price, spec_last_price};
use crate::world::Instrument;
use crate::event::{Actor, Event};
use crate::command::{acting_citizen, spec_acting_citizen, Envelope, Reject, RejectCode};
use crate::orgs::{controlling_owner, spec_controlling_owner};
use crate::tick::{
    folded, lemma_folded_append, lemma_folded_none, lemma_folded_step, lemma_payment_bounded, lemma_payment_movable,
    purses_bounded, TickBuilder,
};
use crate::message::{put, put_citizen, put_contract, put_dwelling, put_kind, put_money, put_name, put_num, put_org, put_party, put_slot, put_workplace, say};
use vstd::prelude::*;

verus! {

/// The share holder a party acts as: a citizen's own account, or the org itself.
pub open spec fn spec_holder_of(party: Party, org: OrgId) -> Option<ShareHolder> {
    match party {
        Party::Citizen(c) => Some(ShareHolder::Citizen(c)),
        Party::Org(o) => if o == org {
            Some(ShareHolder::OrgSelf)
        } else {
            None
        },
    }
}

/// The share holder a party acts as in `org`.
pub fn holder_of(party: Party, org: OrgId) -> (h: Option<ShareHolder>)
    ensures
        h == spec_holder_of(party, org),
{
    match party {
        Party::Citizen(c) => Some(ShareHolder::Citizen(c)),
        Party::Org(o) => if o == org {
            Some(ShareHolder::OrgSelf)
        } else {
            None
        },
    }
}

/// Whether a registry line is `h`'s.
pub open spec fn line_of(h: ShareHolder) -> spec_fn(ShareHolding) -> bool {
    |x: ShareHolding| x.holder == h
}

/// Shares `h` holds under an ownership: its registry line, or none.
pub open spec fn spec_shares_of(ownership: Ownership, h: ShareHolder) -> u64 {
    match ownership {
        Ownership::Shares { holdings, .. } => match first(holdings@, line_of(h)) {
            Some(k) => holdings@[k].qty,
            None => 0,
        },
        _ => 0,
    }
}

/// The shares on `h`'s line of a registry, or none.
pub fn line_qty(holdings: &Vec<ShareHolding>, h: ShareHolder) -> (q: u64)
    ensures
        q == match first(holdings@, line_of(h)) {
            Some(k) => holdings@[k].qty,
            None => 0,
        },
{
    let mut k: usize = 0;
    while k < holdings.len()
        invariant
            k <= holdings@.len(),
            forall|j: int| 0 <= j < k ==> !(line_of(h))(#[trigger] holdings@[j]),
        decreases holdings@.len() - k,
    {
        if holdings[k].holder == h {
            proof {
                assert((line_of(h))(holdings@[k as int]));
                lemma_first(holdings@, line_of(h));
                let j = first(holdings@, line_of(h))->0;
                if j < k {
                    assert(!(line_of(h))(holdings@[j]));
                }
            }
            return holdings[k].qty;
        }
        k = k + 1;
    }
    proof {
        lemma_first(holdings@, line_of(h));
    }
    0
}

/// Shares `holder` holds under `ownership`.
pub fn shares_of(ownership: &Ownership, holder: ShareHolder) -> (q: u64)
    ensures
        q == spec_shares_of(*ownership, holder),
{
    match ownership {
        Ownership::Shares { holdings, .. } => line_qty(holdings, holder),
        _ => 0,
    }
}

/// Shares a party holds in `org`: none where the org does not exist or the
/// party cannot hold its shares.
pub open spec fn spec_shares_held(w: World, party: Party, org: OrgId) -> u64 {
    match find(w.orgs@, org.0) {
        Some(i) => match spec_holder_of(party, org) {
            Some(h) => spec_shares_of(w.orgs@[i].ownership, h),
            None => 0,
        },
        None => 0,
    }
}

/// Shares a party holds in `org`.
pub fn shares_held(world: &World, party: Party, org: OrgId) -> (q: u64)
    ensures
        q == spec_shares_held(*world, party, org),
{
    let i = match index_of(&world.orgs, org.0) {
        Some(i) => i,
        None => {
            return 0;
        },
    };
    let h = match holder_of(party, org) {
        Some(h) => h,
        None => {
            return 0;
        },
    };
    shares_of(&world.orgs[i].ownership, h)
}

/// A registry line's shares where a citizen holds them.
pub open spec fn citizen_line() -> spec_fn(ShareHolding) -> int {
    |x: ShareHolding|
        match x.holder {
            ShareHolder::Citizen(_) => x.qty as int,
            ShareHolder::OrgSelf => 0,
        }
}

/// Shares held by citizens (not the org itself): what a dividend pays on.
pub open spec fn spec_citizen_held(org: Org) -> int {
    match org.ownership {
        Ownership::Shares { holdings, .. } => seq_sum(holdings@, citizen_line()),
        _ => 0,
    }
}

/// Shares on citizens' lines of a registry.
fn citizen_lines(holdings: &Vec<ShareHolding>) -> (q: u64)
    requires
        seq_sum(holdings@, citizen_line()) <= u64::MAX,
    ensures
        q == seq_sum(holdings@, citizen_line()),
{
    proof {
        assert forall|j: int| 0 <= j < holdings@.len() implies 0 <= #[trigger] citizen_line()(holdings@[j]) by {}
    }
    let mut total: u64 = 0;
    let mut i: usize = 0;
    while i < holdings.len()
        invariant
            i <= holdings@.len(),
            total == seq_sum(holdings@.take(i as int), citizen_line()),
            seq_sum(holdings@, citizen_line()) <= u64::MAX,
            forall|j: int| 0 <= j < holdings@.len() ==> 0 <= #[trigger] citizen_line()(holdings@[j]),
        decreases holdings@.len() - i,
    {
        proof {
            lemma_sum_take_step(holdings@, citizen_line(), i as int);
            lemma_sum_prefix_le(holdings@, citizen_line(), (i + 1) as int);
        }
        let x = holdings[i];
        match x.holder {
            ShareHolder::Citizen(_) => {
                total = total + x.qty;
            },
            ShareHolder::OrgSelf => {},
        }
        i = i + 1;
    }
    proof {
        lemma_sum_take_all(holdings@, citizen_line());
    }
    total
}

/// Shares held by citizens (not the org itself).
pub fn citizen_held(org: &Org) -> (q: u64)
    requires
        spec_citizen_held(*org) <= u64::MAX,
    ensures
        q == spec_citizen_held(*org),
{
    match &org.ownership {
        Ownership::Shares { holdings, .. } => citizen_lines(holdings),
        _ => 0,
    }
}

/// What `q` units of `g` fetch at its last price (nothing where it has none).
pub open spec fn priced(w: World, g: Good, q: int) -> int {
    match spec_last_price(w, Instrument::Good(g)) {
        Some(p) => p.0 * q,
        None => 0,
    }
}

/// A stock of goods at last prices.
pub open spec fn stock_value(w: World, stock: PerGood<u32>) -> int {
    priced(w, Good::Grain, stock.spec_get(Good::Grain) as int) + priced(w, Good::Ore, stock.spec_get(Good::Ore) as int)
        + priced(w, Good::Materials, stock.spec_get(Good::Materials) as int) + priced(
        w,
        Good::Food,
        stock.spec_get(Good::Food) as int,
    ) + priced(w, Good::Wares, stock.spec_get(Good::Wares) as int) + priced(
        w,
        Good::Machines,
        stock.spec_get(Good::Machines) as int,
    )
}

/// `q` units of `g` at its last price, widened.
fn priced_at(world: &World, g: Good, q: u64) -> (v: i128)
    ensures
        v == priced(*world, g, q as int),
{
    match last_price(world, Instrument::Good(g)) {
        Some(p) => {
            assert(-0x8000_0000_0000_0000 * 0xffff_ffff_ffff_ffff <= p.0 * q <= 0x7fff_ffff_ffff_ffff
                * 0xffff_ffff_ffff_ffff) by (nonlinear_arith)
                requires
                    -0x8000_0000_0000_0000 <= p.0 <= 0x7fff_ffff_ffff_ffff,
                    0 <= q <= 0xffff_ffff_ffff_ffff,
            ;
            p.0 as i128 * q as i128
        },
        None => 0,
    }
}

/// A stock of goods at last prices, widened.
fn stock_worth(world: &World, stock: &PerGood<u32>) -> (v: i128)
    ensures
        v == stock_value(*world, *stock),
        -0x8000_0000_0000_0000 * 0x8_0000_0000 <= v <= 0x8000_0000_0000_0000 * 0x8_0000_0000,
{
    let a = priced_at(world, Good::Grain, stock.get(Good::Grain) as u64);
    let b = priced_at(world, Good::Ore, stock.get(Good::Ore) as u64);
    let c = priced_at(world, Good::Materials, stock.get(Good::Materials) as u64);
    let d = priced_at(world, Good::Food, stock.get(Good::Food) as u64);
    let e = priced_at(world, Good::Wares, stock.get(Good::Wares) as u64);
    let f = priced_at(world, Good::Machines, stock.get(Good::Machines) as u64);
    proof {
        assert forall|g: Good, q: int| 0 <= q <= u32::MAX implies -0x8000_0000_0000_0000 * 0xffff_ffff <= #[trigger] priced(*world, g, q) <= 0x8000_0000_0000_0000 * 0xffff_ffff by {
            if let Some(p) = spec_last_price(*world, Instrument::Good(g)) {
                assert(-0x8000_0000_0000_0000 * 0xffff_ffff <= p.0 * q <= 0x8000_0000_0000_0000 * 0xffff_ffff) by (nonlinear_arith)
                    requires
                        -0x8000_0000_0000_0000 <= p.0 <= 0x7fff_ffff_ffff_ffff,
                        0 <= q <= 0xffff_ffff,
                ;
            }
        }
        assert(a == priced(*world, Good::Grain, stock.spec_get(Good::Grain) as int));
    }
    a + b + c + d + e + f
}

/// Book value: the treasury, the inventory at last prices and the installed
/// machines at the last machines price.
pub open spec fn spec_book_value(w: World, org: Org) -> int {
    org.treasury.0 + stock_value(w, org.inventory) + priced(w, Good::Machines, installed_at(w, org))
}

/// Whether an org's book value can be taken: its installed machines count
/// and its value are within range.
pub open spec fn book_computable(w: World, org: Org) -> bool {
    installed_at(w, org) <= u32::MAX && fits_i64(spec_book_value(w, org))
}

/// Book value: the treasury plus inventory and installed machines at last prices.
pub fn book_value(world: &World, org: &Org) -> (m: Money)
    requires
        book_computable(*world, *org),
    ensures
        m.0 == spec_book_value(*world, *org),
{
    let stock = stock_worth(world, &org.inventory);
    let machines = machines_sum(world, &org.workplaces);
    let kit = priced_at(world, Good::Machines, machines as u64);
    proof {
        if let Some(p) = spec_last_price(*world, Instrument::Good(Good::Machines)) {
            assert(-0x8000_0000_0000_0000 * 0xffff_ffff <= p.0 * machines <= 0x8000_0000_0000_0000 * 0xffff_ffff) by (nonlinear_arith)
                requires
                    -0x8000_0000_0000_0000 <= p.0 <= 0x7fff_ffff_ffff_ffff,
                    0 <= machines <= 0xffff_ffff,
            ;
        }
        assert forall|g: Good, q: int| 0 <= q <= u32::MAX implies -0x8000_0000_0000_0000 * 0xffff_ffff <= #[trigger] priced(*world, g, q) <= 0x8000_0000_0000_0000 * 0xffff_ffff by {
            if let Some(p) = spec_last_price(*world, Instrument::Good(g)) {
                assert(-0x8000_0000_0000_0000 * 0xffff_ffff <= p.0 * q <= 0x8000_0000_0000_0000 * 0xffff_ffff) by (nonlinear_arith)
                    requires
                        -0x8000_0000_0000_0000 <= p.0 <= 0x7fff_ffff_ffff_ffff,
                        0 <= q <= 0xffff_ffff,
                ;
            }
        }
        assert(priced(*world, Good::Grain, org.inventory.spec_get(Good::Grain) as int) >= -0x8000_0000_0000_0000 * 0xffff_ffff);
    }
    let total = org.treasury.0 as i128 + stock + kit;
    Money(total as i64)
}

/// The divisor a book value is split by: the shares issued, or one where
/// that count is beyond a signed 64-bit amount.
pub open spec fn per_share_divisor(issued: u64) -> int {
    if issued <= i64::MAX {
        issued as int
    } else {
        1
    }
}

/// `a / d` rounded toward zero, for a positive `d`.
pub open spec fn div_toward_zero(a: int, d: int) -> int {
    if a >= 0 {
        a / d
    } else {
        -((-a) / d)
    }
}

/// Whether a share's value comes from the book: no share has traded and the
/// org has issued some.
pub open spec fn valued_by_book(w: World, org: Org) -> bool {
    &&& spec_last_price(w, Instrument::Share(org.id)) is None
    &&& org.ownership matches Ownership::Shares { issued, .. } && issued > 0
}

/// A share's value: the last trade if any, else book value per issued share
/// (rounded toward zero), else nothing.
pub open spec fn spec_share_value(w: World, org: Org) -> int {
    match spec_last_price(w, Instrument::Share(org.id)) {
        Some(p) => p.0 as int,
        None => match org.ownership {
            Ownership::Shares { issued, .. } => if issued > 0 {
                div_toward_zero(spec_book_value(w, org), per_share_divisor(issued))
            } else {
                0
            },
            _ => 0,
        },
    }
}

/// A share's value: last trade if any, else book value per issued share.
pub fn share_value(world: &World, org: &Org) -> (m: Money)
    requires
        valued_by_book(*world, *org) ==> book_computable(*world, *org),
    ensures
        m.0 == spec_share_value(*world, *org),
{
    if let Some(p) = last_price(world, Instrument::Share(org.id)) {
        return p;
    }
    match &org.ownership {
        Ownership::Shares { issued, .. } => {
            if *issued > 0 {
                let bv = book_value(world, org).0;
                let d: i64 = if *issued <= i64::MAX as u64 {
                    *issued as i64
                } else {
                    1
                };
                if bv >= 0 {
                    Money(bv / d)
                } else {
                    let q = (-(bv as i128)) / (d as i128);
                    Money((-q) as i64)
                }
            } else {
                Money(0)
            }
        },
        _ => Money(0),
    }
}

/// What a citizen's holding in an org is worth: the shares at their value,
/// nothing where the holding is beyond a signed 64-bit count.
pub open spec fn holding_worth(w: World, c: CitizenId) -> spec_fn(Org) -> int {
    |o: Org|
        {
            let held = spec_shares_of(o.ownership, ShareHolder::Citizen(c));
            if held > 0 && held <= i64::MAX {
                spec_share_value(w, o) * held
            } else {
                0
            }
        }
}

/// Net worth: balance, pantry at last prices and shares at their value (none
/// for a citizen who does not exist).
pub open spec fn spec_net_worth(w: World, c: CitizenId) -> int {
    match find(w.citizens@, c.0) {
        Some(i) => w.citizens@[i].household.balance.0 + stock_value(w, w.citizens@[i].household.pantry) + seq_sum(
            w.orgs@,
            holding_worth(w, c),
        ),
        None => 0,
    }
}

/// Whether a citizen's holding in `o` can be valued: the share value can be
/// taken and the holding's worth is within range.
pub open spec fn holding_computable(w: World, c: CitizenId, o: Org) -> bool {
    let held = spec_shares_of(o.ownership, ShareHolder::Citizen(c));
    held > 0 && held <= i64::MAX ==> {
        &&& valued_by_book(w, o) ==> book_computable(w, o)
        &&& fits_i64(spec_share_value(w, o))
        &&& fits_i64(spec_share_value(w, o) * held)
    }
}

/// What a citizen's net worth starts from: balance and pantry at last prices.
pub open spec fn worth_base(w: World, i: int) -> int {
    w.citizens@[i].household.balance.0 + stock_value(w, w.citizens@[i].household.pantry)
}

/// Whether a citizen's net worth can be taken: each holding can be valued and
/// the running total stays within range as the orgs are gone through.
pub open spec fn worth_computable(w: World, c: CitizenId) -> bool {
    &&& forall|k: int| 0 <= k < w.orgs@.len() ==> holding_computable(w, c, #[trigger] w.orgs@[k])
    &&& find(w.citizens@, c.0) matches Some(i) ==> forall|k: int|
        0 <= k <= w.orgs@.len() ==> fits_i64(
            worth_base(w, i) + #[trigger] seq_sum(w.orgs@.take(k), holding_worth(w, c)),
        )
}

/// Net worth: balance + pantry at last price + shares at value.
pub fn net_worth(world: &World, citizen: CitizenId) -> (m: Money)
    requires
        worth_computable(*world, citizen),
    ensures
        m.0 == spec_net_worth(*world, citizen),
{
    let i = match index_of(&world.citizens, citizen.0) {
        Some(i) => i,
        None => {
            return Money(0);
        },
    };
    proof {
        lemma_find(world.citizens@, citizen.0);
    }
    let c = &world.citizens[i];
    let stock = stock_worth(world, &c.household.pantry);
    let mut worth: i128 = c.household.balance.0 as i128 + stock;
    let ghost base = worth as int;
    assert(base == worth_base(*world, i as int));
    let orgs = &world.orgs;
    let mut k: usize = 0;
    while k < orgs.len()
        invariant
            k <= orgs@.len(),
            orgs@ == world.orgs@,
            find(world.citizens@, citizen.0) == Some(i as int),
            base == worth_base(*world, i as int),
            worth == base + seq_sum(orgs@.take(k as int), holding_worth(*world, citizen)),
            worth_computable(*world, citizen),
        decreases orgs@.len() - k,
    {
        proof {
            lemma_sum_take_step(orgs@, holding_worth(*world, citizen), k as int);
            assert(holding_computable(*world, citizen, orgs@[k as int]));
            assert(fits_i64(worth_base(*world, i as int) + seq_sum(orgs@.take(k as int), holding_worth(*world, citizen))));
        }
        let o = &orgs[k];
        let held = shares_of(&o.ownership, ShareHolder::Citizen(citizen));
        if held > 0 && held <= i64::MAX as u64 {
            let v = share_value(world, o).0;
            let t = v as i128 * held as i128;
            worth = worth + t;
        }
        k = k + 1;
    }
    proof {
        lemma_sum_take_all(orgs@, holding_worth(*world, citizen));
        assert(fits_i64(worth_base(*world, i as int) + seq_sum(orgs@.take(orgs@.len() as int), holding_worth(*world, citizen))));
    }
    Money(worth as i64)
}

/// The self-made track: net worth less the endowment.
pub fn self_made(world: &World, citizen: CitizenId) -> (m: Money)
    requires
        worth_computable(*world, citizen),
        fits_i64(spec_net_worth(*world, citizen) - world.params.money.endowment.0),
    ensures
        m.0 == spec_net_worth(*world, citizen) - world.params.money.endowment.0,
{
    Money(net_worth(world, citizen).0 - world.params.money.endowment.0)
}

/// What a citizen's registry line is owed of a declared dividend.
#[derive(Clone, Copy, Debug, PartialEq, Eq, Structural)]
pub struct Owed {
    pub citizen: CitizenId,
    pub shares: u64,
    pub amount: Money,
}

/// What a line of `q` shares is owed at `per_share`: nothing for a count
/// beyond a signed 64-bit amount.
pub open spec fn line_amount(q: u64, per_share: Money) -> int {
    per_share.0 * (if q <= i64::MAX {
        q as int
    } else {
        0
    })
}

/// What a registry line is owed, if it is a citizen's line with shares.
pub open spec fn owed_line(x: ShareHolding, per_share: Money) -> Option<Owed> {
    match x.holder {
        ShareHolder::Citizen(c) => if x.qty > 0 {
            Some(Owed { citizen: c, shares: x.qty, amount: Money(line_amount(x.qty, per_share) as i64) })
        } else {
            None
        },
        ShareHolder::OrgSelf => None,
    }
}

/// What the citizens' lines of a registry are owed, in registry order.
pub open spec fn owed_lines(h: Seq<ShareHolding>, per_share: Money) -> Seq<Owed>
    decreases h.len(),
{
    if h.len() == 0 {
        Seq::empty()
    } else {
        match owed_line(h.last(), per_share) {
            Some(x) => owed_lines(h.drop_last(), per_share).push(x),
            None => owed_lines(h.drop_last(), per_share),
        }
    }
}

/// An owed line's amount, as a summand.
pub open spec fn owed_amount() -> spec_fn(Owed) -> int {
    |o: Owed| o.amount.0 as int
}

/// What the lines are owed in all.
pub open spec fn owed_total(os: Seq<Owed>) -> int {
    seq_sum(os, owed_amount())
}

/// A line's payout from a treasury: in full where the treasury covers the
/// total owed, else its share of the treasury (rounded toward zero).
pub open spec fn payout(amount: int, total: int, treasury: int) -> int {
    if total > treasury {
        div_toward_zero(amount * treasury, if total > 1 {
            total
        } else {
            1
        })
    } else {
        amount
    }
}

/// What a line is paid: its payout where that is positive, else nothing.
pub open spec fn paid_term(total: int, treasury: int) -> spec_fn(Owed) -> int {
    |o: Owed|
        {
            let p = payout(o.amount.0 as int, total, treasury);
            if p > 0 {
                p
            } else {
                0
            }
        }
}

/// A pro-rata run: each payout times the total is at most the treasury
/// times what the paid lines are owed.
proof fn lemma_prorata_prefix(os: Seq<Owed>, total: int, treasury: int, k: int)
    requires
        0 <= treasury < total,
        0 <= k <= os.len(),
        forall|i: int| 0 <= i < os.len() ==> 0 <= (#[trigger] os[i]).amount.0,
    ensures
        0 <= seq_sum(os.take(k), paid_term(total, treasury)),
        seq_sum(os.take(k), paid_term(total, treasury)) * total <= treasury * seq_sum(os.take(k), owed_amount()),
    decreases k,
{
    if k > 0 {
        lemma_prorata_prefix(os, total, treasury, k - 1);
        lemma_sum_take_step(os, paid_term(total, treasury), k - 1);
        lemma_sum_take_step(os, owed_amount(), k - 1);
        let a = os[k - 1].amount.0 as int;
        assert(0 <= os[k - 1].amount.0);
        assert(a >= 0);
        let x = a * treasury;
        assert(x >= 0) by (nonlinear_arith)
            requires
                a >= 0,
                treasury >= 0,
                x == a * treasury,
        ;
        vstd::arithmetic::div_mod::lemma_fundamental_div_mod(x, total);
        let q = x / total;
        assert(q * total <= x) by (nonlinear_arith)
            requires
                x == total * q + (x % total),
                0 <= x % total,
        ;
        assert(q >= 0) by (nonlinear_arith)
            requires
                x >= 0,
                total > 0,
                q == x / total,
        ;
        assert(paid_term(total, treasury)(os[k - 1]) == q);
        let s0 = seq_sum(os.take(k - 1), paid_term(total, treasury));
        let a0 = seq_sum(os.take(k - 1), owed_amount());
        assert((s0 + q) * total <= treasury * (a0 + a)) by (nonlinear_arith)
            requires
                s0 * total <= treasury * a0,
                q * total <= x,
                x == a * treasury,
        ;
    }
}

/// What an org pays out of a declared dividend never exceeds the treasury
/// it pays from: in full where the treasury covers what is owed, pro rata
/// (rounded toward zero) where it does not, so every run of payments
/// leaves the treasury solvent.
pub proof fn lemma_payouts_within_treasury(os: Seq<Owed>, treasury: int, k: int)
    requires
        treasury >= 0,
        0 <= k <= os.len(),
        (forall|i: int| 0 <= i < os.len() ==> 0 <= (#[trigger] os[i]).amount.0) || (forall|i: int|
            0 <= i < os.len() ==> (#[trigger] os[i]).amount.0 <= 0),
    ensures
        0 <= seq_sum(os.take(k), paid_term(owed_total(os), treasury)) <= treasury,
{
    let total = owed_total(os);
    let f = paid_term(total, treasury);
    if forall|i: int| 0 <= i < os.len() ==> 0 <= (#[trigger] os[i]).amount.0 {
        lemma_sum_prefix_le(os, owed_amount(), k);
        if total > treasury {
            lemma_prorata_prefix(os, total, treasury, k);
            let s = seq_sum(os.take(k), f);
            let a = seq_sum(os.take(k), owed_amount());
            assert(s <= treasury) by (nonlinear_arith)
                requires
                    s * total <= treasury * a,
                    a <= total,
                    total > treasury,
                    treasury >= 0,
            ;
        } else {
            assert forall|i: int| 0 <= i < os.take(k).len() implies (#[trigger] f(os.take(k)[i])) == owed_amount()(
                os.take(k)[i],
            ) by {
                assert(os.take(k)[i] == os[i]);
            }
            crate::sum::lemma_sum_ext(os.take(k), f, owed_amount());
        }
    } else {
        assert forall|i: int| 0 <= i < os.len() implies (#[trigger] os[i]).amount.0 <= 0 by {}
        assert forall|i: int| 0 <= i < os.len() implies 0 <= -owed_amount()(#[trigger] os[i]) by {}
        lemma_sum_le_zero(os, owed_amount());
        assert forall|i: int| 0 <= i < os.take(k).len() implies (#[trigger] f(os.take(k)[i])) == 0 by {
            assert(os.take(k)[i] == os[i]);
        }
        crate::sum::lemma_sum_bounds(os.take(k), f, 0, 0);
        assert(os.take(k).len() * 0 == 0);
    }
}

/// A sum of terms that are not positive is not positive.
proof fn lemma_sum_le_zero(s: Seq<Owed>, f: spec_fn(Owed) -> int)
    requires
        forall|i: int| 0 <= i < s.len() ==> #[trigger] f(s[i]) <= 0,
    ensures
        seq_sum(s, f) <= 0,
    decreases s.len(),
{
    if s.len() > 0 {
        let t = s.drop_last();
        assert forall|i: int| 0 <= i < t.len() implies #[trigger] f(t[i]) <= 0 by {
            assert(t[i] == s[i]);
        }
        lemma_sum_le_zero(t, f);
    }
}

/// The payments of the lines `os` from a treasury: each positive payout, in order.
pub open spec fn payouts(org: OrgId, os: Seq<Owed>, total: int, treasury: int) -> Seq<Event>
    decreases os.len(),
{
    if os.len() == 0 {
        Seq::empty()
    } else {
        let p = payout(os.last().amount.0 as int, total, treasury);
        payouts(org, os.drop_last(), total, treasury) + if p > 0 {
            seq![Event::DividendPaid { org, citizen: os.last().citizen, amount: Money(p as i64) }]
        } else {
            Seq::empty()
        }
    }
}

/// What an org's declared dividend pays its citizen holders, from the
/// treasury it has.
pub open spec fn org_dividends(o: Org) -> Seq<Event> {
    match o.declared_dividend {
        Some(p) => match o.ownership {
            Ownership::Shares { holdings, .. } => {
                let os = owed_lines(holdings@, p);
                payouts(o.id, os, owed_total(os), o.treasury.0 as int)
            },
            _ => Seq::empty(),
        },
        None => Seq::empty(),
    }
}

/// What the cycle's end pays in dividends: each org's, in table order.
pub open spec fn dividends_due(orgs: Seq<Org>) -> Seq<Event>
    decreases orgs.len(),
{
    if orgs.len() == 0 {
        Seq::empty()
    } else {
        dividends_due(orgs.drop_last()) + org_dividends(orgs.last())
    }
}

/// Whether what each citizen line is owed of an org's declared dividend is
/// within range.
pub open spec fn lines_countable(o: Org) -> bool {
    match o.declared_dividend {
        Some(p) => match o.ownership {
            Ownership::Shares { holdings, .. } => forall|j: int|
                0 <= j < holdings@.len() ==> (owed_line(#[trigger] holdings@[j], p) is Some ==> fits_i64(
                    line_amount(holdings@[j].qty, p),
                )),
            _ => true,
        },
        None => true,
    }
}

/// Whether every declared dividend's lines are within range.
pub open spec fn dividends_countable(w: World) -> bool {
    forall|k: int| 0 <= k < w.orgs@.len() ==> lines_countable(#[trigger] w.orgs@[k])
}

/// What the citizens' lines of a registry are owed of a dividend.
fn owed_of(h: &Vec<ShareHolding>, per_share: Money) -> (v: Vec<Owed>)
    requires
        forall|j: int|
            0 <= j < h@.len() ==> (owed_line(#[trigger] h@[j], per_share) is Some ==> fits_i64(
                line_amount(h@[j].qty, per_share),
            )),
    ensures
        v@ == owed_lines(h@, per_share),
        forall|i: int|
            0 <= i < v@.len() ==> (per_share.0 >= 0 ==> 0 <= (#[trigger] v@[i]).amount.0) && (per_share.0 <= 0
                ==> v@[i].amount.0 <= 0),
{
    let mut v: Vec<Owed> = Vec::new();
    let mut j: usize = 0;
    while j < h.len()
        invariant
            j <= h@.len(),
            v@ == owed_lines(h@.take(j as int), per_share),
            forall|i: int|
                0 <= i < v@.len() ==> (per_share.0 >= 0 ==> 0 <= (#[trigger] v@[i]).amount.0) && (per_share.0 <= 0
                    ==> v@[i].amount.0 <= 0),
            forall|i: int|
                0 <= i < h@.len() ==> (owed_line(#[trigger] h@[i], per_share) is Some ==> fits_i64(
                    line_amount(h@[i].qty, per_share),
                )),
        decreases h@.len() - j,
    {
        proof {
            assert(h@.take(j + 1).drop_last() =~= h@.take(j as int));
            assert(h@.take(j + 1).last() == h@[j as int]);
        }
        let x = h[j];
        match x.holder {
            ShareHolder::Citizen(c) => {
                if x.qty > 0 {
                    let q: i64 = if x.qty <= i64::MAX as u64 {
                        x.qty as i64
                    } else {
                        0
                    };
                    proof {
                        assert(owed_line(h@[j as int], per_share) is Some);
                        assert(line_amount(x.qty, per_share) == per_share.0 * q);
                        assert(per_share.0 >= 0 ==> per_share.0 * q >= 0) by (nonlinear_arith)
                            requires
                                q >= 0,
                        ;
                        assert(per_share.0 <= 0 ==> per_share.0 * q <= 0) by (nonlinear_arith)
                            requires
                                q >= 0,
                        ;
                    }
                    let amount = per_share.0 * q;
                    v.push(Owed { citizen: c, shares: x.qty, amount: Money(amount) });
                }
            },
            ShareHolder::OrgSelf => {},
        }
        j = j + 1;
    }
    proof {
        assert(h@.take(h@.len() as int) =~= h@);
    }
    v
}

/// What the lines are owed in all, widened.
pub fn total_owed(os: &Vec<Owed>) -> (t: i128)
    ensures
        t == owed_total(os@),
{
    let mut t: i128 = 0;
    let mut k: usize = 0;
    while k < os.len()
        invariant
            k <= os@.len(),
            t == seq_sum(os@.take(k as int), owed_amount()),
            -(k as int) * 0x8000_0000_0000_0000 <= t <= (k as int) * 0x7fff_ffff_ffff_ffff,
        decreases os@.len() - k,
    {
        proof {
            lemma_sum_take_step(os@, owed_amount(), k as int);
        }
        t = t + os[k].amount.0 as i128;
        k = k + 1;
    }
    proof {
        lemma_sum_take_all(os@, owed_amount());
    }
    t
}

/// What paying a dividend line does to the orgs: the payer's treasury goes down by the amount.
proof fn lemma_dividend_rows(o: World, n: World, k: int, c: CitizenId, a: Money)
    requires
        o.wf(),
        0 <= k < o.orgs@.len(),
        applied(o, n, Event::DividendPaid { org: o.orgs@[k].id, citizen: c, amount: a }),
    ensures
        n.orgs@ == o.orgs@.update(k, crate::apply::with_treasury(o.orgs@[k], o.orgs@[k].treasury.0 - a.0)),
{
    let org = o.orgs@[k].id;
    let m = crate::ledger::Asset::Money(a);
    let mid = choose|mid: World|
        crate::apply::moved_via(o, mid, n, crate::ledger::Holder::Org(org), crate::ledger::Holder::Citizen(c), m);
    crate::table::lemma_find_unique(o.orgs@, k);
    assert(n.orgs == mid.orgs);
}

/// Pay out the declared dividend of the org at `k`.
fn pay_org(b: &mut TickBuilder, k: usize)
    requires
        old(b).world.wf(),
        purses_bounded(old(b).world),
        k < old(b).world.orgs@.len(),
        lines_countable(old(b).world.orgs@[k as int]),
    ensures
        final(b).world.wf(),
        purses_bounded(final(b).world),
        final(b).tick == old(b).tick,
        final(b).cycle == old(b).cycle,
        final(b).events@ == old(b).events@ + org_dividends(old(b).world.orgs@[k as int]),
        folded(old(b).world, org_dividends(old(b).world.orgs@[k as int]), final(b).world),
        final(b).world.orgs@.len() == old(b).world.orgs@.len(),
        forall|j: int|
            0 <= j < old(b).world.orgs@.len() && j != k ==> #[trigger] final(b).world.orgs@[j] == old(b).world.orgs@[j],
{
    let ghost w0 = b.world;
    let ghost start = b.events@;
    proof {
        lemma_folded_none(w0);
        assert(start + Seq::<Event>::empty() =~= start);
    }
    let per_share = match b.world.orgs[k].declared_dividend {
        Some(p) => p,
        None => {
            return;
        },
    };
    let os = match &b.world.orgs[k].ownership {
        Ownership::Shares { holdings, .. } => owed_of(holdings, per_share),
        _ => {
            return;
        },
    };
    let treasury = b.world.orgs[k].treasury.0;
    let org = b.world.orgs[k].id;
    let total = total_owed(&os);
    let ghost tr = treasury as int;
    let ghost f = paid_term(total as int, tr);
    proof {
        assert(w0.orgs@[k as int].treasury.0 >= 0);
        assert forall|m: int| 0 <= m <= os@.len() implies 0 <= #[trigger] seq_sum(os@.take(m), f) <= tr by {
            if per_share.0 >= 0 {
                assert forall|i: int| 0 <= i < os@.len() implies 0 <= (#[trigger] os@[i]).amount.0 by {}
            } else {
                assert forall|i: int| 0 <= i < os@.len() implies (#[trigger] os@[i]).amount.0 <= 0 by {}
            }
            lemma_payouts_within_treasury(os@, tr, m);
        }
        assert(os@.take(0) =~= Seq::<Owed>::empty());
    }
    let mut i: usize = 0;
    while i < os.len()
        invariant
            i <= os@.len(),
            b.world.wf(),
            purses_bounded(b.world),
            b.tick == old(b).tick,
            b.cycle == old(b).cycle,
            b.world.orgs@.len() == w0.orgs@.len(),
            k < w0.orgs@.len(),
            forall|j: int| 0 <= j < w0.orgs@.len() && j != k ==> #[trigger] b.world.orgs@[j] == w0.orgs@[j],
            b.world.orgs@[k as int].id == org,
            org == w0.orgs@[k as int].id,
            tr == w0.orgs@[k as int].treasury.0,
            tr == treasury as int,
            total == owed_total(os@),
            f == paid_term(total as int, tr),
            b.world.orgs@[k as int].treasury.0 == tr - seq_sum(os@.take(i as int), f),
            forall|m: int| 0 <= m <= os@.len() ==> 0 <= #[trigger] seq_sum(os@.take(m), f) <= tr,
            b.events@ == start + payouts(org, os@.take(i as int), total as int, tr),
            folded(w0, payouts(org, os@.take(i as int), total as int, tr), b.world),
        decreases os@.len() - i,
    {
        let x = os[i];
        let ghost done = payouts(org, os@.take(i as int), total as int, tr);
        let ghost before = b.world;
        proof {
            lemma_sum_take_step(os@, f, i as int);
            assert(os@.take(i + 1).drop_last() =~= os@.take(i as int));
            assert(os@.take(i + 1).last() == x);
            assert(0 <= seq_sum(os@.take(i + 1), f) <= tr);
        }
        let p: i128 = if total > treasury as i128 {
            let d: i128 = if total > 1 {
                total
            } else {
                1
            };
            assert(-0x4000_0000_0000_0000_0000_0000_0000_0000 <= x.amount.0 * treasury
                <= 0x4000_0000_0000_0000_0000_0000_0000_0000) by (nonlinear_arith)
                requires
                    -0x8000_0000_0000_0000 <= x.amount.0 <= 0x7fff_ffff_ffff_ffff,
                    -0x8000_0000_0000_0000 <= treasury <= 0x7fff_ffff_ffff_ffff,
            ;
            let prod: i128 = x.amount.0 as i128 * treasury as i128;
            assert(d as int == (if total > 1 { total as int } else { 1int }));
            if prod >= 0 {
                let r = prod / d;
                assert(r == div_toward_zero(x.amount.0 * treasury, d as int));
                r
            } else {
                let np: i128 = -prod;
                let r = np / d;
                assert(-r == div_toward_zero(x.amount.0 * treasury, d as int));
                -r
            }
        } else {
            x.amount.0 as i128
        };
        assert(p == payout(x.amount.0 as int, total as int, tr));
        if p > 0 {
            let paid = Money(p as i64);
            proof {
                crate::table::lemma_find_unique(b.world.orgs@, k as int);
                assert(spec_money_of_org(b.world, org) == tr - seq_sum(os@.take(i as int), f));
                lemma_payment_movable(b.world, Party::Org(org), Party::Citizen(x.citizen), paid);
            }
            let e = Event::DividendPaid { org, citizen: x.citizen, amount: paid };
            let ghost g = e;
            b.emit(e);
            proof {
                lemma_folded_step(w0, done, before, b.world, g);
                lemma_payment_bounded(before, b.world, Party::Org(org), Party::Citizen(x.citizen), paid);
                lemma_dividend_rows(before, b.world, k as int, x.citizen, paid);
                assert(payouts(org, os@.take(i + 1), total as int, tr) =~= done.push(g));
                assert(b.events@ =~= start + done.push(g));
            }
        } else {
            proof {
                assert(payouts(org, os@.take(i + 1), total as int, tr) =~= done);
            }
        }
        i = i + 1;
    }
    proof {
        assert(os@.take(os@.len() as int) =~= os@);
    }
}

/// An org's money, where the org exists.
pub open spec fn spec_money_of_org(w: World, org: OrgId) -> int {
    crate::apply::spec_money_of(w, Party::Org(org)).0 as int
}

/// Step 8e: pay each declared dividend to the citizens who hold the org's
/// shares, in full where the treasury covers it and pro rata where payroll
/// left it short.
pub fn cycle_end_8e_dividends(b: &mut TickBuilder)
    requires
        old(b).world.wf(),
        purses_bounded(old(b).world),
        dividends_countable(old(b).world),
    ensures
        final(b).world.wf(),
        purses_bounded(final(b).world),
        final(b).tick == old(b).tick,
        final(b).cycle == old(b).cycle,
        final(b).events@ == old(b).events@ + dividends_due(old(b).world.orgs@),
        folded(old(b).world, dividends_due(old(b).world.orgs@), final(b).world),
{
    let ghost w0 = b.world;
    let ghost start = b.events@;
    proof {
        lemma_folded_none(w0);
        assert(w0.orgs@.take(0) =~= Seq::<Org>::empty());
        assert(start + Seq::<Event>::empty() =~= start);
    }
    let n = b.world.orgs.len();
    let mut k: usize = 0;
    while k < n
        invariant
            k <= n,
            n == w0.orgs@.len(),
            b.world.wf(),
            purses_bounded(b.world),
            b.tick == old(b).tick,
            b.cycle == old(b).cycle,
            dividends_countable(w0),
            b.world.orgs@.len() == n,
            forall|j: int| k <= j < n ==> #[trigger] b.world.orgs@[j] == w0.orgs@[j],
            b.events@ == start + dividends_due(w0.orgs@.take(k as int)),
            folded(w0, dividends_due(w0.orgs@.take(k as int)), b.world),
        decreases n - k,
    {
        let ghost before = b.world;
        let ghost done = dividends_due(w0.orgs@.take(k as int));
        proof {
            assert(b.world.orgs@[k as int] == w0.orgs@[k as int]);
            assert(lines_countable(w0.orgs@[k as int]));
        }
        pay_org(b, k);
        proof {
            lemma_folded_append(w0, done, before, org_dividends(w0.orgs@[k as int]), b.world);
            assert(w0.orgs@.take(k + 1).drop_last() =~= w0.orgs@.take(k as int));
            assert(w0.orgs@.take(k + 1).last() == w0.orgs@[k as int]);
            assert(b.events@ =~= start + (done + org_dividends(w0.orgs@[k as int])));
            assert forall|j: int| k + 1 <= j < n implies #[trigger] b.world.orgs@[j] == w0.orgs@[j] by {
                assert(b.world.orgs@[j] == before.orgs@[j]);
            }
        }
        k = k + 1;
    }
    proof {
        assert(w0.orgs@.take(n as int) =~= w0.orgs@);
    }
}

/// A firm, by position: an org with a share registry.
pub open spec fn spec_firm(w: World, org: OrgId) -> Result<int, RejectCode> {
    match find(w.orgs@, org.0) {
        None => Err(RejectCode::UnknownOrg),
        Some(i) => if w.orgs@[i].ownership is Shares {
            Ok(i)
        } else {
            Err(RejectCode::NotInThisSociety)
        },
    }
}

/// The org, where it has a share registry.
fn firm(world: &World, org: OrgId) -> (r: Result<&Org, Reject>)
    ensures
        match (r, spec_firm(*world, org)) {
            (Ok(o), Ok(i)) => *o == world.orgs@[i],
            (Err(e), Err(code)) => e.code == code,
            _ => false,
        },
{
    let i = match index_of(&world.orgs, org.0) {
        Some(i) => i,
        None => {
            return Err(Reject::new(RejectCode::UnknownOrg, { let mut m = say("no org "); put_org(&mut m, org); m }));
        },
    };
    let o = &world.orgs[i];
    if !matches!(o.ownership, Ownership::Shares { .. }) {
        return Err(Reject::new(RejectCode::NotInThisSociety, { let mut m = String::new(); put_name(&mut m, &o.name); put(&mut m, " has no share registry"); m }));
    }
    Ok(o)
}

/// A firm the actor controls, by position.
pub open spec fn spec_require_control(w: World, actor: Actor, org: OrgId) -> Result<int, RejectCode> {
    match spec_acting_citizen(w, actor) {
        Err(c) => Err(c),
        Ok(ci) => match spec_firm(w, org) {
            Err(c) => Err(c),
            Ok(oi) => if spec_controlling_owner(w.orgs@[oi]) != Some(w.citizens@[ci].id) {
                Err(RejectCode::NotControllingOwner)
            } else {
                Ok(oi)
            },
        },
    }
}

/// The firm, where the acting citizen is its controlling owner.
fn require_control<'w, C>(world: &'w World, envelope: &Envelope<C>, org: OrgId) -> (r: Result<&'w Org, Reject>)
    ensures
        match (r, spec_require_control(*world, envelope.actor, org)) {
            (Ok(o), Ok(i)) => *o == world.orgs@[i],
            (Err(e), Err(code)) => e.code == code,
            _ => false,
        },
{
    let actor = acting_citizen(world, envelope)?;
    let o = firm(world, org)?;
    if controlling_owner(o) != Some(actor.id) {
        return Err(Reject::new(RejectCode::NotControllingOwner, { let mut m = String::new(); put_citizen(&mut m, actor.id); put(&mut m, " does not control "); put_name(&mut m, &o.name); m }));
    }
    Ok(o)
}

/// What `IssueShares` emits: new shares on the firm's own line, by its
/// controlling owner.
pub open spec fn spec_issue_shares(w: World, actor: Actor, org: OrgId, qty: u64) -> Result<Seq<Event>, RejectCode> {
    match spec_require_control(w, actor, org) {
        Err(c) => Err(c),
        Ok(_) => if qty == 0 {
            Err(RejectCode::InvalidQuantity)
        } else {
            Ok(seq![Event::SharesIssued { org, qty }])
        },
    }
}

/// `IssueShares`: the controlling owner mints shares into the org's own holdings.
pub fn issue_shares<C>(world: &World, envelope: &Envelope<C>, org: OrgId, qty: u64) -> (r: Result<Vec<Event>, Reject>)
    ensures
        match (r, spec_issue_shares(*world, envelope.actor, org, qty)) {
            (Ok(v), Ok(s)) => v@ == s,
            (Err(e), Err(code)) => e.code == code,
            _ => false,
        },
{
    require_control(world, envelope, org)?;
    if qty == 0 {
        return Err(Reject::new(RejectCode::InvalidQuantity, "quantity must be positive".to_string()));
    }
    let mut v: Vec<Event> = Vec::new();
    v.push(Event::SharesIssued { org, qty });
    proof {
        assert(v@ =~= seq![Event::SharesIssued { org, qty }]);
    }
    Ok(v)
}

/// The shares a dividend pays on, as the payout is reckoned: citizens'
/// holdings, capped at the largest `i64`.
pub open spec fn dividend_base(o: Org) -> int {
    if spec_citizen_held(o) > i64::MAX {
        i64::MAX as int
    } else {
        spec_citizen_held(o)
    }
}

/// Whether a dividend of `per_share` on `org` can be reckoned: its
/// citizens' holdings count up within `u64`, and the payout within `i64`.
pub open spec fn dividend_reckonable(w: World, org: OrgId, per_share: Money) -> bool {
    forall|i: int|
        0 <= i < w.orgs@.len() && (#[trigger] w.orgs@[i]).id == org ==> {
            &&& spec_citizen_held(w.orgs@[i]) <= u64::MAX
            &&& per_share.0 > 0 ==> per_share.0 * dividend_base(w.orgs@[i]) <= i64::MAX
        }
}

/// What `DeclareDividend` emits: a positive payout per share, one per
/// cycle, that the treasury covers for the citizens' holdings.
pub open spec fn spec_declare_dividend(w: World, actor: Actor, org: OrgId, per_share: Money) -> Result<Seq<Event>, RejectCode> {
    match spec_require_control(w, actor, org) {
        Err(c) => Err(c),
        Ok(oi) => {
            let o = w.orgs@[oi];
            if per_share.0 <= 0 {
                Err(RejectCode::InvalidPrice)
            } else if o.declared_dividend is Some {
                Err(RejectCode::AlreadyExists)
            } else if per_share.0 * dividend_base(o) > o.treasury.0 {
                Err(RejectCode::InsufficientFunds)
            } else {
                Ok(seq![Event::DividendDeclared { org, per_share, cycle: w.spec_cycle_of(w.meta.tick) as u32 }])
            }
        },
    }
}

/// `DeclareDividend`: the controlling owner declares a per-share payout from
/// the treasury, paid at this cycle's end. Org-held shares earn nothing.
pub fn declare_dividend<C>(world: &World, envelope: &Envelope<C>, org: OrgId, per_share: Money) -> (r: Result<Vec<Event>, Reject>)
    requires
        world.params.time.ticks_per_cycle > 0,
        dividend_reckonable(*world, org, per_share),
    ensures
        match (r, spec_declare_dividend(*world, envelope.actor, org, per_share)) {
            (Ok(v), Ok(s)) => v@ == s,
            (Err(e), Err(code)) => e.code == code,
            _ => false,
        },
{
    let o = require_control(world, envelope, org)?;
    if per_share.0 <= 0 {
        return Err(Reject::new(RejectCode::InvalidPrice, "dividend must be positive".to_string()));
    }
    if o.declared_dividend.is_some() {
        return Err(Reject::new(RejectCode::AlreadyExists, "a dividend is already declared this cycle".to_string()));
    }
    let ghost oi = spec_require_control(*world, envelope.actor, org)->Ok_0;
    proof {
        lemma_find(world.orgs@, org.0);
        assert(world.orgs@[oi].id == org);
        assert(*o == world.orgs@[oi]);
        assert(spec_citizen_held(*o) <= u64::MAX);
        assert(per_share.0 > 0 ==> per_share.0 * dividend_base(*o) <= i64::MAX);
    }
    let held = citizen_held(o);
    let base: i64 = if held > 0x7fff_ffff_ffff_ffffu64 {
        0x7fff_ffff_ffff_ffffi64
    } else {
        held as i64
    };
    let total = per_share.0 * base;
    if total > o.treasury.0 {
        return Err(Reject::new(RejectCode::InsufficientFunds, { let mut m = String::new(); put_money(&mut m, Money(total)); put(&mut m, " exceeds the treasury "); put_money(&mut m, o.treasury); m }));
    }
    let cycle = world.cycle_of(world.meta.tick);
    let mut v: Vec<Event> = Vec::new();
    v.push(Event::DividendDeclared { org, per_share, cycle });
    proof {
        assert(v@ =~= seq![Event::DividendDeclared { org, per_share, cycle: world.spec_cycle_of(world.meta.tick) as u32 }]);
    }
    Ok(v)
}

} // verus!
