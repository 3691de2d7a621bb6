//! Holders, assets, and the ledger's running totals.
//!
//! Every unit of money and every good is held by exactly one [`Holder`]. Money
//! enters through `minted` and leaves through `burned`; goods enter through
//! `produced` or `seeded` and leave through `consumed`, `depreciated`, or
//! `burned`.
use crate::ids::{CitizenId, ContractId, OrderId, OrgId, WorkplaceId};
use crate::kinds::{Good, PerGood};
use crate::money::Money;
use crate::sum::{lemma_sum_bounds, lemma_sum_take_all, lemma_sum_take_step, seq_sum};
use crate::table::{first, lemma_first};
use crate::world::{Citizen, Escrowed, Org, Ownership, ShareHolder, ShareHolding, SharesEscrowed, Workplace, World};
use vstd::prelude::*;

verus! {

/// A citizen or an org: the parties that can act and own.
#[derive(Clone, Copy, Debug, PartialEq, Eq, Structural)]
pub enum Party {
    Citizen(CitizenId),
    Org(OrgId),
}

/// Anywhere money or goods can sit.
#[derive(Clone, Copy, Debug, PartialEq, Eq, Structural)]
pub enum Holder {
    Citizen(CitizenId),
    Org(OrgId),
    /// Machines installed at a workplace.
    Workplace(WorkplaceId),
    OrderEscrow(OrderId),
    ContractEscrow(ContractId),
    /// The Common Store (moneyless systems).
    Store,
    /// The state's stock (administered systems).
    StateStock,
    /// The tax treasury (tax-transfer systems).
    Treasury,
}

impl Holder {
    /// The holder a party is.
    pub open spec fn spec_from_party(p: Party) -> Holder {
        match p {
            Party::Citizen(c) => Holder::Citizen(c),
            Party::Org(o) => Holder::Org(o),
        }
    }

    /// The holder a party is.
    pub fn from_party(p: Party) -> (h: Holder)
        ensures
            h == Holder::spec_from_party(p),
    {
        match p {
            Party::Citizen(c) => Holder::Citizen(c),
            Party::Org(o) => Holder::Org(o),
        }
    }
}

/// A quantity of money or of one good.
#[derive(Clone, Copy, Debug, PartialEq, Eq, Structural)]
pub enum Asset {
    Money(Money),
    Good(Good, u32),
}

/// Running totals of what has entered and left the economy.
#[derive(Clone, Copy, Debug, PartialEq, Eq)]
pub struct LedgerMeta {
    pub minted: Money,
    pub burned_money: Money,
    pub produced: PerGood<u64>,
    pub seeded: PerGood<u64>,
    pub consumed: PerGood<u64>,
    pub depreciated: PerGood<u64>,
    pub burned: PerGood<u64>,
    pub dwellings_built: u64,
}

impl LedgerMeta {
    /// The totals before anything entered or left.
    pub open spec fn spec_empty() -> LedgerMeta {
        LedgerMeta {
            minted: Money(0),
            burned_money: Money(0),
            produced: PerGood::<u64>::spec_filled(0),
            seeded: PerGood::<u64>::spec_filled(0),
            consumed: PerGood::<u64>::spec_filled(0),
            depreciated: PerGood::<u64>::spec_filled(0),
            burned: PerGood::<u64>::spec_filled(0),
            dwellings_built: 0,
        }
    }

    /// Nothing entered or left yet.
    pub fn empty() -> (m: LedgerMeta)
        ensures
            m == LedgerMeta::spec_empty(),
    {
        LedgerMeta {
            minted: Money(0),
            burned_money: Money(0),
            produced: PerGood::filled(0),
            seeded: PerGood::filled(0),
            consumed: PerGood::filled(0),
            depreciated: PerGood::filled(0),
            burned: PerGood::filled(0),
            dwellings_built: 0,
        }
    }

    /// Count `qty` more of `good` in a running total.
    pub fn add(map: &mut PerGood<u64>, good: Good, qty: u32)
        requires
            old(map).spec_get(good) + qty <= u64::MAX,
        ensures
            *final(map) == old(map).spec_set(good, (old(map).spec_get(good) + qty) as u64),
    {
        let q = map.get(good);
        map.set(good, q + qty as u64);
    }

    /// What holders should sum to for `good`: produced + seeded - consumed -
    /// depreciated - burned.
    pub open spec fn spec_expected_goods(&self, good: Good) -> int {
        self.produced.spec_get(good) + self.seeded.spec_get(good) - self.consumed.spec_get(good)
            - self.depreciated.spec_get(good) - self.burned.spec_get(good)
    }

    /// What holders should sum to for `good`.
    pub fn expected_goods(&self, good: Good) -> (e: i128)
        ensures
            e == self.spec_expected_goods(good),
    {
        self.produced.get(good) as i128 + self.seeded.get(good) as i128 - self.consumed.get(good) as i128
            - self.depreciated.get(good) as i128 - self.burned.get(good) as i128
    }

    /// What holders should sum to in money: minted - burned.
    pub open spec fn spec_expected_money(&self) -> int {
        self.minted.0 - self.burned_money.0
    }
}

/// A conservation violation.
#[derive(Clone, Copy, Debug, PartialEq, Eq, Structural)]
pub enum Imbalance {
    /// Holders sum to `actual` but minted - burned is `expected`.
    Money { expected: i128, actual: i128 },
    /// Holders of `good` sum to `actual` but the ledger expects `expected`.
    Good { good: Good, expected: i128, actual: i128 },
    /// A negative balance.
    NegativeMoney { holder: Holder, amount: Money },
    /// Shares held plus escrowed differ from those issued.
    Shares { org: OrgId, held: u128, escrowed: u128, issued: u64 },
}

/// Money an escrow entry holds.
pub open spec fn escrowed_money(e: Escrowed) -> int {
    match e.asset {
        Asset::Money(m) => m.0 as int,
        Asset::Good(_, _) => 0,
    }
}

/// Units of `g` an escrow entry holds.
pub open spec fn escrowed_goods(e: Escrowed, g: Good) -> int {
    match e.asset {
        Asset::Good(h, q) => if h == g { q as int } else { 0 },
        Asset::Money(_) => 0,
    }
}

/// A citizen's balance, as a summand.
pub open spec fn balance_of() -> spec_fn(Citizen) -> int {
    |c: Citizen| c.household.balance.0 as int
}

/// An org's treasury, as a summand.
pub open spec fn treasury_of() -> spec_fn(Org) -> int {
    |o: Org| o.treasury.0 as int
}

/// An escrow entry's money, as a summand.
pub open spec fn escrow_money_of() -> spec_fn(Escrowed) -> int {
    |e: Escrowed| escrowed_money(e)
}

/// A citizen's pantry of `g`, as a summand.
pub open spec fn pantry_of(g: Good) -> spec_fn(Citizen) -> int {
    |c: Citizen| c.household.pantry.spec_get(g) as int
}

/// An org's inventory of `g`, as a summand.
pub open spec fn inventory_of(g: Good) -> spec_fn(Org) -> int {
    |o: Org| o.inventory.spec_get(g) as int
}

/// A workplace's installed machines, as a summand.
pub open spec fn machines_of() -> spec_fn(Workplace) -> int {
    |w: Workplace| w.machines as int
}

/// An escrow entry's units of `g`, as a summand.
pub open spec fn escrow_goods_of(g: Good) -> spec_fn(Escrowed) -> int {
    |e: Escrowed| escrowed_goods(e, g)
}

/// All money citizens hold.
pub open spec fn citizens_money(s: Seq<Citizen>) -> int {
    seq_sum(s, balance_of())
}

/// All money orgs hold.
pub open spec fn orgs_money(s: Seq<Org>) -> int {
    seq_sum(s, treasury_of())
}

/// All money in escrow.
pub open spec fn escrow_money(s: Seq<Escrowed>) -> int {
    seq_sum(s, escrow_money_of())
}

/// All units of `g` in citizens' pantries.
pub open spec fn citizens_goods(s: Seq<Citizen>, g: Good) -> int {
    seq_sum(s, pantry_of(g))
}

/// All units of `g` in orgs' inventories.
pub open spec fn orgs_goods(s: Seq<Org>, g: Good) -> int {
    seq_sum(s, inventory_of(g))
}

/// All machines installed at workplaces.
pub open spec fn installed_machines(s: Seq<Workplace>) -> int {
    seq_sum(s, machines_of())
}

/// All units of `g` in escrow.
pub open spec fn escrow_goods(s: Seq<Escrowed>, g: Good) -> int {
    seq_sum(s, escrow_goods_of(g))
}

/// Every unit of money every holder holds.
pub open spec fn money_held(w: World) -> int {
    citizens_money(w.citizens@) + orgs_money(w.orgs@) + escrow_money(w.escrow@) + (match w.state_stock {
        Some(s) => s.till.0 as int,
        None => 0,
    }) + w.treasury.0
}

/// Every unit of `g` every holder holds.
pub open spec fn goods_held(w: World, g: Good) -> int {
    citizens_goods(w.citizens@, g) + orgs_goods(w.orgs@, g) + (if g == Good::Machines {
        installed_machines(w.workplaces@)
    } else {
        0
    }) + escrow_goods(w.escrow@, g) + (match w.store {
        Some(s) => s.stock.spec_get(g) as int,
        None => 0,
    }) + (match w.state_stock {
        Some(s) => s.stock.spec_get(g) as int,
        None => 0,
    })
}

/// A registry line's shares, as a summand.
pub open spec fn holding_qty() -> spec_fn(ShareHolding) -> int {
    |x: ShareHolding| x.qty as int
}

/// An escrow entry's shares of `org`, as a summand.
pub open spec fn escrowed_shares_of(org: OrgId) -> spec_fn(SharesEscrowed) -> int {
    |e: SharesEscrowed| if e.org == org { e.qty as int } else { 0 }
}

/// Shares held in an org's registry.
pub open spec fn registry_total(h: Seq<ShareHolding>) -> int {
    seq_sum(h, holding_qty())
}

/// Shares of `org` held in escrow.
pub open spec fn escrowed_shares(s: Seq<SharesEscrowed>, org: OrgId) -> int {
    seq_sum(s, escrowed_shares_of(org))
}

/// An org's shares held plus escrowed equal those issued (orgs without a
/// registry trivially).
pub open spec fn shares_balanced(w: World, o: Org) -> bool {
    match o.ownership {
        Ownership::Shares { issued, holdings } => registry_total(holdings@) + escrowed_shares(
            w.share_escrow@,
            o.id,
        ) == issued,
        _ => true,
    }
}

/// The books balance: no citizen or org is in debt, money held is minted
/// less burned, each good held is what the ledger expects, and every share
/// registry adds up.
pub open spec fn conserved(w: World) -> bool {
    &&& forall|i: int| 0 <= i < w.citizens@.len() ==> #[trigger] w.citizens@[i].household.balance.0 >= 0
    &&& forall|i: int| 0 <= i < w.orgs@.len() ==> #[trigger] w.orgs@[i].treasury.0 >= 0
    &&& money_held(w) == w.ledger_meta.spec_expected_money()
    &&& forall|g: Good| goods_held(w, g) == #[trigger] w.ledger_meta.spec_expected_goods(g)
    &&& forall|i: int| 0 <= i < w.orgs@.len() ==> shares_balanced(w, #[trigger] w.orgs@[i])
}

/// Every table of the world has fewer than 2^32 rows (a bound on the sums
/// the checks compute).
pub open spec fn sized(w: World) -> bool {
    &&& w.citizens@.len() < 0x1_0000_0000
    &&& w.orgs@.len() < 0x1_0000_0000
    &&& w.workplaces@.len() < 0x1_0000_0000
    &&& w.escrow@.len() < 0x1_0000_0000
    &&& w.share_escrow@.len() < 0x1_0000_0000
    &&& forall|i: int| 0 <= i < w.orgs@.len() ==> match #[trigger] w.orgs@[i].ownership {
        Ownership::Shares { holdings, .. } => holdings@.len() < 0x1_0000_0000,
        _ => true,
    }
}

/// A citizen in debt.
pub open spec fn negative_citizen() -> spec_fn(Citizen) -> bool {
    |c: Citizen| c.household.balance.0 < 0
}

/// An org in debt.
pub open spec fn negative_org() -> spec_fn(Org) -> bool {
    |o: Org| o.treasury.0 < 0
}

/// A good whose holders do not sum to what the ledger expects.
pub open spec fn unbalanced_good(w: World) -> spec_fn(Good) -> bool {
    |g: Good| goods_held(w, g) != w.ledger_meta.spec_expected_goods(g)
}

/// An org whose share registry does not add up.
pub open spec fn unbalanced_registry(w: World) -> spec_fn(Org) -> bool {
    |o: Org| !shares_balanced(w, o)
}

/// What the conservation check answers: the first failure in its order of
/// checks (citizens' balances, orgs' treasuries, money, each good in turn,
/// each org's registry), or `Ok`.
pub open spec fn spec_conservation_check(w: World) -> Result<(), Imbalance> {
    match first(w.citizens@, negative_citizen()) {
        Some(i) => Err(
            Imbalance::NegativeMoney {
                holder: Holder::Citizen(w.citizens@[i].id),
                amount: w.citizens@[i].household.balance,
            },
        ),
        None => match first(w.orgs@, negative_org()) {
            Some(i) => Err(
                Imbalance::NegativeMoney { holder: Holder::Org(w.orgs@[i].id), amount: w.orgs@[i].treasury },
            ),
            None => if money_held(w) != w.ledger_meta.spec_expected_money() {
                Err(
                    Imbalance::Money {
                        expected: w.ledger_meta.spec_expected_money() as i128,
                        actual: money_held(w) as i128,
                    },
                )
            } else {
                match first(crate::kinds::spec_all_goods(), unbalanced_good(w)) {
                    Some(k) => {
                        let g = crate::kinds::spec_all_goods()[k];
                        Err(
                            Imbalance::Good {
                                good: g,
                                expected: w.ledger_meta.spec_expected_goods(g) as i128,
                                actual: goods_held(w, g) as i128,
                            },
                        )
                    },
                    None => match first(w.orgs@, unbalanced_registry(w)) {
                        Some(i) => {
                            let o = w.orgs@[i];
                            match o.ownership {
                                Ownership::Shares { issued, holdings } => Err(
                                    Imbalance::Shares {
                                        org: o.id,
                                        held: registry_total(holdings@) as u128,
                                        escrowed: escrowed_shares(w.share_escrow@, o.id) as u128,
                                        issued,
                                    },
                                ),
                                _ => Ok(()),
                            }
                        },
                        None => Ok(()),
                    },
                }
            },
        },
    }
}

/// Add a pantry or inventory into running totals per good.
fn add_goods(acc: &mut PerGood<i128>, c: PerGood<u32>)
    requires
        forall|g: Good| 0 <= #[trigger] old(acc).spec_get(g) <= 0x1_0000_0000_0000_0000_0000,
    ensures
        forall|g: Good| #[trigger] final(acc).spec_get(g) == old(acc).spec_get(g) + c.spec_get(g),
{
    proof {
        let g0 = old(acc).spec_get(Good::Grain);
        let g1 = old(acc).spec_get(Good::Ore);
        let g2 = old(acc).spec_get(Good::Materials);
        let g3 = old(acc).spec_get(Good::Food);
        let g4 = old(acc).spec_get(Good::Wares);
        let g5 = old(acc).spec_get(Good::Machines);
    }
    acc.grain = acc.grain + c.grain as i128;
    acc.ore = acc.ore + c.ore as i128;
    acc.materials = acc.materials + c.materials as i128;
    acc.food = acc.food + c.food as i128;
    acc.wares = acc.wares + c.wares as i128;
    acc.machines = acc.machines + c.machines as i128;
}

/// Money and goods of every citizen.
fn sum_citizens(s: &Vec<Citizen>) -> (r: (i128, PerGood<i128>))
    requires
        s@.len() < 0x1_0000_0000,
    ensures
        r.0 == citizens_money(s@),
        forall|g: Good| #[trigger] r.1.spec_get(g) == citizens_goods(s@, g),
{
    let mut money: i128 = 0;
    let mut goods: PerGood<i128> = PerGood::filled(0);
    let mut i: usize = 0;
    while i < s.len()
        invariant
            i <= s@.len() < 0x1_0000_0000,
            money == seq_sum(s@.take(i as int), balance_of()),
            forall|g: Good| #[trigger] goods.spec_get(g) == seq_sum(s@.take(i as int), pantry_of(g)),
        decreases s.len() - i,
    {
        proof {
            lemma_sum_take_step(s@, balance_of(), i as int);
            lemma_sum_bounds(s@.take(i as int), balance_of(), i64::MIN as int, i64::MAX as int);
            assert(i * i64::MIN >= 0x1_0000_0000 * i64::MIN) by (nonlinear_arith)
                requires i <= 0x1_0000_0000;
            assert(i * i64::MAX <= 0x1_0000_0000 * i64::MAX) by (nonlinear_arith)
                requires i <= 0x1_0000_0000;
            assert forall|g: Good| 0 <= #[trigger] goods.spec_get(g) <= 0x1_0000_0000_0000_0000_0000 by {
                lemma_sum_bounds(s@.take(i as int), pantry_of(g), 0, u32::MAX as int);
                assert(i * u32::MAX <= 0x1_0000_0000 * u32::MAX) by (nonlinear_arith)
                    requires i <= 0x1_0000_0000;
            }
            assert forall|g: Good| seq_sum(s@.take(i + 1), pantry_of(g)) == #[trigger] seq_sum(s@.take(i as int), pantry_of(g)) + s@[i as int].household.pantry.spec_get(g) by {
                lemma_sum_take_step(s@, pantry_of(g), i as int);
            }
        }
        money = money + s[i].household.balance.0 as i128;
        add_goods(&mut goods, s[i].household.pantry);
        i = i + 1;
    }
    proof {
        lemma_sum_take_all(s@, balance_of());
        assert forall|g: Good| #[trigger] goods.spec_get(g) == citizens_goods(s@, g) by {
            lemma_sum_take_all(s@, pantry_of(g));
        }
    }
    (money, goods)
}

/// Money and goods of every org.
fn sum_orgs(s: &Vec<Org>) -> (r: (i128, PerGood<i128>))
    requires
        s@.len() < 0x1_0000_0000,
    ensures
        r.0 == orgs_money(s@),
        forall|g: Good| #[trigger] r.1.spec_get(g) == orgs_goods(s@, g),
{
    let mut money: i128 = 0;
    let mut goods: PerGood<i128> = PerGood::filled(0);
    let mut i: usize = 0;
    while i < s.len()
        invariant
            i <= s@.len() < 0x1_0000_0000,
            money == seq_sum(s@.take(i as int), treasury_of()),
            forall|g: Good| #[trigger] goods.spec_get(g) == seq_sum(s@.take(i as int), inventory_of(g)),
        decreases s.len() - i,
    {
        proof {
            lemma_sum_take_step(s@, treasury_of(), i as int);
            lemma_sum_bounds(s@.take(i as int), treasury_of(), i64::MIN as int, i64::MAX as int);
            assert(i * i64::MIN >= 0x1_0000_0000 * i64::MIN) by (nonlinear_arith)
                requires i <= 0x1_0000_0000;
            assert(i * i64::MAX <= 0x1_0000_0000 * i64::MAX) by (nonlinear_arith)
                requires i <= 0x1_0000_0000;
            assert forall|g: Good| 0 <= #[trigger] goods.spec_get(g) <= 0x1_0000_0000_0000_0000_0000 by {
                lemma_sum_bounds(s@.take(i as int), inventory_of(g), 0, u32::MAX as int);
                assert(i * u32::MAX <= 0x1_0000_0000 * u32::MAX) by (nonlinear_arith)
                    requires i <= 0x1_0000_0000;
            }
            assert forall|g: Good| seq_sum(s@.take(i + 1), inventory_of(g)) == #[trigger] seq_sum(s@.take(i as int), inventory_of(g)) + s@[i as int].inventory.spec_get(g) by {
                lemma_sum_take_step(s@, inventory_of(g), i as int);
            }
        }
        money = money + s[i].treasury.0 as i128;
        add_goods(&mut goods, s[i].inventory);
        i = i + 1;
    }
    proof {
        lemma_sum_take_all(s@, treasury_of());
        assert forall|g: Good| #[trigger] goods.spec_get(g) == orgs_goods(s@, g) by {
            lemma_sum_take_all(s@, inventory_of(g));
        }
    }
    (money, goods)
}

/// Machines installed at every workplace.
fn sum_machines(s: &Vec<Workplace>) -> (r: i128)
    requires
        s@.len() < 0x1_0000_0000,
    ensures
        r == installed_machines(s@),
{
    let mut n: i128 = 0;
    let mut i: usize = 0;
    while i < s.len()
        invariant
            i <= s@.len() < 0x1_0000_0000,
            n == seq_sum(s@.take(i as int), machines_of()),
        decreases s.len() - i,
    {
        proof {
            lemma_sum_take_step(s@, machines_of(), i as int);
            lemma_sum_bounds(s@.take(i as int), machines_of(), 0, u32::MAX as int);
            assert(i * u32::MAX <= 0x1_0000_0000 * u32::MAX) by (nonlinear_arith)
                requires i <= 0x1_0000_0000;
        }
        n = n + s[i].machines as i128;
        i = i + 1;
    }
    proof {
        lemma_sum_take_all(s@, machines_of());
    }
    n
}

/// Money and goods held in escrow.
fn sum_escrow(s: &Vec<Escrowed>) -> (r: (i128, PerGood<i128>))
    requires
        s@.len() < 0x1_0000_0000,
    ensures
        r.0 == escrow_money(s@),
        forall|g: Good| #[trigger] r.1.spec_get(g) == escrow_goods(s@, g),
{
    let mut money: i128 = 0;
    let mut goods: PerGood<i128> = PerGood::filled(0);
    let mut i: usize = 0;
    while i < s.len()
        invariant
            i <= s@.len() < 0x1_0000_0000,
            money == seq_sum(s@.take(i as int), escrow_money_of()),
            forall|g: Good| #[trigger] goods.spec_get(g) == seq_sum(s@.take(i as int), escrow_goods_of(g)),
        decreases s.len() - i,
    {
        proof {
            lemma_sum_take_step(s@, escrow_money_of(), i as int);
            lemma_sum_bounds(s@.take(i as int), escrow_money_of(), i64::MIN as int, i64::MAX as int);
            assert(i * i64::MIN >= 0x1_0000_0000 * i64::MIN) by (nonlinear_arith)
                requires i <= 0x1_0000_0000;
            assert(i * i64::MAX <= 0x1_0000_0000 * i64::MAX) by (nonlinear_arith)
                requires i <= 0x1_0000_0000;
            assert forall|g: Good| 0 <= #[trigger] goods.spec_get(g) <= 0x1_0000_0000_0000_0000_0000 by {
                lemma_sum_bounds(s@.take(i as int), escrow_goods_of(g), 0, u32::MAX as int);
                assert(i * u32::MAX <= 0x1_0000_0000 * u32::MAX) by (nonlinear_arith)
                    requires i <= 0x1_0000_0000;
            }
            assert forall|g: Good| seq_sum(s@.take(i + 1), escrow_goods_of(g)) == #[trigger] seq_sum(s@.take(i as int), escrow_goods_of(g)) + escrowed_goods(s@[i as int], g) by {
                lemma_sum_take_step(s@, escrow_goods_of(g), i as int);
            }
        }
        let ghost prev = goods;
        match s[i].asset {
            Asset::Money(m) => {
                money = money + m.0 as i128;
            },
            Asset::Good(g, q) => {
                let before = goods.get(g);
                goods.set(g, before + q as i128);
            },
        }
        assert forall|g: Good| #[trigger] goods.spec_get(g) == prev.spec_get(g) + escrowed_goods(s@[i as int], g) by {
            match s@[i as int].asset {
                Asset::Money(_) => {},
                Asset::Good(h, q) => {
                    match g { Good::Grain => {}, Good::Ore => {}, Good::Materials => {}, Good::Food => {}, Good::Wares => {}, Good::Machines => {} }
                    match h { Good::Grain => {}, Good::Ore => {}, Good::Materials => {}, Good::Food => {}, Good::Wares => {}, Good::Machines => {} }
                },
            }
        }
        i = i + 1;
    }
    proof {
        lemma_sum_take_all(s@, escrow_money_of());
        assert forall|g: Good| #[trigger] goods.spec_get(g) == escrow_goods(s@, g) by {
            lemma_sum_take_all(s@, escrow_goods_of(g));
        }
    }
    (money, goods)
}

/// Sum every holder of money and goods, per good.
pub fn holdings(world: &World) -> (r: (i128, PerGood<i128>))
    requires
        sized(*world),
    ensures
        r.0 == money_held(*world),
        forall|g: Good| #[trigger] r.1.spec_get(g) == goods_held(*world, g),
{
    let (cm, cg) = sum_citizens(&world.citizens);
    let (om, og) = sum_orgs(&world.orgs);
    let machines = sum_machines(&world.workplaces);
    let (em, eg) = sum_escrow(&world.escrow);
    proof {
        lemma_sum_bounds(world.citizens@, balance_of(), i64::MIN as int, i64::MAX as int);
        lemma_sum_bounds(world.orgs@, treasury_of(), i64::MIN as int, i64::MAX as int);
        lemma_sum_bounds(world.escrow@, escrow_money_of(), i64::MIN as int, i64::MAX as int);
        lemma_sum_bounds(world.workplaces@, machines_of(), 0, u32::MAX as int);
        let n1 = world.citizens@.len();
        let n2 = world.orgs@.len();
        let n3 = world.escrow@.len();
        let n4 = world.workplaces@.len();
        assert(n1 * i64::MIN >= 0x1_0000_0000 * i64::MIN && n1 * i64::MAX <= 0x1_0000_0000 * i64::MAX) by (nonlinear_arith)
            requires n1 <= 0x1_0000_0000;
        assert(n2 * i64::MIN >= 0x1_0000_0000 * i64::MIN && n2 * i64::MAX <= 0x1_0000_0000 * i64::MAX) by (nonlinear_arith)
            requires n2 <= 0x1_0000_0000;
        assert(n3 * i64::MIN >= 0x1_0000_0000 * i64::MIN && n3 * i64::MAX <= 0x1_0000_0000 * i64::MAX) by (nonlinear_arith)
            requires n3 <= 0x1_0000_0000;
        assert(n4 * u32::MAX <= 0x1_0000_0000 * u32::MAX) by (nonlinear_arith)
            requires n4 <= 0x1_0000_0000;
        assert forall|g: Good| 0 <= #[trigger] cg.spec_get(g) <= 0x1_0000_0000 * u32::MAX by {
            lemma_sum_bounds(world.citizens@, pantry_of(g), 0, u32::MAX as int);
            assert(n1 * u32::MAX <= 0x1_0000_0000 * u32::MAX) by (nonlinear_arith)
                requires n1 <= 0x1_0000_0000;
        }
        assert forall|g: Good| 0 <= #[trigger] og.spec_get(g) <= 0x1_0000_0000 * u32::MAX by {
            lemma_sum_bounds(world.orgs@, inventory_of(g), 0, u32::MAX as int);
            assert(n2 * u32::MAX <= 0x1_0000_0000 * u32::MAX) by (nonlinear_arith)
                requires n2 <= 0x1_0000_0000;
        }
        assert forall|g: Good| 0 <= #[trigger] eg.spec_get(g) <= 0x1_0000_0000 * u32::MAX by {
            lemma_sum_bounds(world.escrow@, escrow_goods_of(g), 0, u32::MAX as int);
            assert(n3 * u32::MAX <= 0x1_0000_0000 * u32::MAX) by (nonlinear_arith)
                requires n3 <= 0x1_0000_0000;
        }
        let x0 = cg.spec_get(Good::Grain) + og.spec_get(Good::Grain) + eg.spec_get(Good::Grain);
        let x1 = cg.spec_get(Good::Ore) + og.spec_get(Good::Ore) + eg.spec_get(Good::Ore);
        let x2 = cg.spec_get(Good::Materials) + og.spec_get(Good::Materials) + eg.spec_get(Good::Materials);
        let x3 = cg.spec_get(Good::Food) + og.spec_get(Good::Food) + eg.spec_get(Good::Food);
        let x4 = cg.spec_get(Good::Wares) + og.spec_get(Good::Wares) + eg.spec_get(Good::Wares);
        let x5 = cg.spec_get(Good::Machines) + og.spec_get(Good::Machines) + eg.spec_get(Good::Machines);
    }
    let mut money: i128 = cm + om + em;
    let mut goods: PerGood<i128> = PerGood {
        grain: cg.grain + og.grain + eg.grain,
        ore: cg.ore + og.ore + eg.ore,
        materials: cg.materials + og.materials + eg.materials,
        food: cg.food + og.food + eg.food,
        wares: cg.wares + og.wares + eg.wares,
        machines: cg.machines + og.machines + machines + eg.machines,
    };
    match &world.store {
        Some(st) => add_goods(&mut goods, st.stock),
        None => {},
    }
    match &world.state_stock {
        Some(st) => {
            add_goods(&mut goods, st.stock);
            money = money + st.till.0 as i128;
        },
        None => {},
    }
    money = money + world.treasury.0 as i128;
    (money, goods)
}

/// Shares held across a registry.
fn registry_sum(h: &Vec<ShareHolding>) -> (r: u128)
    requires
        h@.len() < 0x1_0000_0000,
    ensures
        r == registry_total(h@),
        r <= 0x1_0000_0000 * u64::MAX,
{
    let mut n: u128 = 0;
    let mut i: usize = 0;
    while i < h.len()
        invariant
            i <= h@.len() < 0x1_0000_0000,
            n == seq_sum(h@.take(i as int), holding_qty()),
        decreases h.len() - i,
    {
        proof {
            lemma_sum_take_step(h@, holding_qty(), i as int);
            lemma_sum_bounds(h@.take(i as int), holding_qty(), 0, u64::MAX as int);
            assert(i * u64::MAX <= 0x1_0000_0000 * u64::MAX) by (nonlinear_arith)
                requires i <= 0x1_0000_0000;
        }
        n = n + h[i].qty as u128;
        i = i + 1;
    }
    proof {
        lemma_sum_take_all(h@, holding_qty());
        lemma_sum_bounds(h@, holding_qty(), 0, u64::MAX as int);
        let n = h@.len();
        assert(n * u64::MAX <= 0x1_0000_0000 * u64::MAX) by (nonlinear_arith)
            requires n <= 0x1_0000_0000;
    }
    n
}

/// Shares of `org` held in escrow.
fn escrowed_sum(s: &Vec<SharesEscrowed>, org: OrgId) -> (r: u128)
    requires
        s@.len() < 0x1_0000_0000,
    ensures
        r == escrowed_shares(s@, org),
        r <= 0x1_0000_0000 * u64::MAX,
{
    let mut n: u128 = 0;
    let mut i: usize = 0;
    while i < s.len()
        invariant
            i <= s@.len() < 0x1_0000_0000,
            n == seq_sum(s@.take(i as int), escrowed_shares_of(org)),
        decreases s.len() - i,
    {
        proof {
            lemma_sum_take_step(s@, escrowed_shares_of(org), i as int);
            lemma_sum_bounds(s@.take(i as int), escrowed_shares_of(org), 0, u64::MAX as int);
            assert(i * u64::MAX <= 0x1_0000_0000 * u64::MAX) by (nonlinear_arith)
                requires i <= 0x1_0000_0000;
        }
        if s[i].org == org {
            n = n + s[i].qty as u128;
        }
        i = i + 1;
    }
    proof {
        lemma_sum_take_all(s@, escrowed_shares_of(org));
        lemma_sum_bounds(s@, escrowed_shares_of(org), 0, u64::MAX as int);
        let n = s@.len();
        assert(n * u64::MAX <= 0x1_0000_0000 * u64::MAX) by (nonlinear_arith)
            requires n <= 0x1_0000_0000;
    }
    n
}

/// Check that the books balance: no citizen or org in debt, money held equal
/// to minted less burned, each good held equal to what the ledger expects,
/// and every share registry adding up. The first failure is reported.
pub fn conservation_check(world: &World) -> (r: Result<(), Imbalance>)
    requires
        sized(*world),
    ensures
        r == spec_conservation_check(*world),
        r is Ok <==> conserved(*world),
{
    proof {
        lemma_first(world.citizens@, negative_citizen());
        lemma_first(world.orgs@, negative_org());
        lemma_first(crate::kinds::spec_all_goods(), unbalanced_good(*world));
        lemma_first(world.orgs@, unbalanced_registry(*world));
    }
    let mut i: usize = 0;
    while i < world.citizens.len()
        invariant
            i <= world.citizens@.len(),
            first(world.citizens@, negative_citizen()) == crate::table::first_from(world.citizens@, negative_citizen(), i as int),
        decreases world.citizens.len() - i,
    {
        if world.citizens[i].household.balance.0 < 0 {
            return Err(
                Imbalance::NegativeMoney {
                    holder: Holder::Citizen(world.citizens[i].id),
                    amount: world.citizens[i].household.balance,
                },
            );
        }
        i = i + 1;
    }
    let mut i: usize = 0;
    while i < world.orgs.len()
        invariant
            i <= world.orgs@.len(),
            first(world.citizens@, negative_citizen()) is None,
            first(world.orgs@, negative_org()) == crate::table::first_from(world.orgs@, negative_org(), i as int),
        decreases world.orgs.len() - i,
    {
        if world.orgs[i].treasury.0 < 0 {
            return Err(
                Imbalance::NegativeMoney { holder: Holder::Org(world.orgs[i].id), amount: world.orgs[i].treasury },
            );
        }
        i = i + 1;
    }
    let (money, goods) = holdings(world);
    let expected = world.ledger_meta.minted.0 as i128 - world.ledger_meta.burned_money.0 as i128;
    if money != expected {
        return Err(Imbalance::Money { expected, actual: money });
    }
    let all = Good::all();
    let mut k: usize = 0;
    while k < all.len()
        invariant
            all@ == crate::kinds::spec_all_goods(),
            k <= all@.len(),
            first(world.citizens@, negative_citizen()) is None,
            first(world.orgs@, negative_org()) is None,
            money_held(*world) == world.ledger_meta.spec_expected_money(),
            forall|g: Good| #[trigger] goods.spec_get(g) == goods_held(*world, g),
            first(all@, unbalanced_good(*world)) == crate::table::first_from(all@, unbalanced_good(*world), k as int),
        decreases all.len() - k,
    {
        let g = all[k];
        let e = world.ledger_meta.expected_goods(g);
        if goods.get(g) != e {
            return Err(Imbalance::Good { good: g, expected: e, actual: goods.get(g) });
        }
        k = k + 1;
    }
    let mut i: usize = 0;
    while i < world.orgs.len()
        invariant
            i <= world.orgs@.len(),
            sized(*world),
            first(world.citizens@, negative_citizen()) is None,
            first(world.orgs@, negative_org()) is None,
            money_held(*world) == world.ledger_meta.spec_expected_money(),
            first(crate::kinds::spec_all_goods(), unbalanced_good(*world)) is None,
            first(world.orgs@, unbalanced_registry(*world)) == crate::table::first_from(world.orgs@, unbalanced_registry(*world), i as int),
        decreases world.orgs.len() - i,
    {
        let o = &world.orgs[i];
        match &o.ownership {
            Ownership::Shares { issued, holdings } => {
                assert(holdings@.len() < 0x1_0000_0000);
                let held = registry_sum(holdings);
                let escrowed = escrowed_sum(&world.share_escrow, o.id);
                if held + escrowed != *issued as u128 {
                    return Err(Imbalance::Shares { org: o.id, held, escrowed, issued: *issued });
                }
            },
            _ => {},
        }
        i = i + 1;
    }
    proof {
        assert forall|g: Good| goods_held(*world, g) == #[trigger] world.ledger_meta.spec_expected_goods(g) by {
            let k = g.spec_index();
            assert(crate::kinds::spec_all_goods()[k] == g);
        }
    }
    Ok(())
}

} // verus!
