//! `apply`: fold one event into the `World`. It trusts its input: an event
//! names holders and amounts that its producer has checked, and a credit or a
//! debit to a holder that does not exist, or cannot hold the asset, changes
//! nothing. Money is debited exactly; goods are debited down to zero at most.
use crate::event::Event;
use crate::ids::{CitizenId, Cycle, DwellingId, Epoch, OrgId, SlotId, Tick, WorkplaceId};
use crate::kinds::{CitizenKind, Good, GoodCounts, OrgKind, PerGood, WorkplaceKind};
use crate::ledger::{Asset, Holder, LedgerMeta, Party};
use crate::money::Money;
use crate::table::{find, index_of, lemma_find, lemma_update_keeps_ids, upsert, Keyed};
use crate::table::first;
use crate::world::{
    Citizen, CitizenFlags, Contract, ContractStatus, Dwelling, EpochEndReason, Household, LaborState, Meta, Needs,
    Org, Owner, Ownership, ShareHolding, StateStock, Store, Workplace, World,
};
use vstd::prelude::*;

verus! {

/// `a - b`, or zero where `b` is larger.
pub open spec fn sat_sub(a: u32, b: u32) -> u32 {
    if a >= b {
        (a - b) as u32
    } else {
        0
    }
}

/// A citizen with balance `b`.
pub open spec fn with_balance(c: Citizen, b: int) -> Citizen {
    Citizen { household: crate::world::Household { balance: Money(b as i64), ..c.household }, ..c }
}

/// A citizen with `q` of `g` in the pantry.
pub open spec fn with_pantry(c: Citizen, g: Good, q: u32) -> Citizen {
    Citizen {
        household: crate::world::Household { pantry: c.household.pantry.spec_set(g, q), ..c.household },
        ..c
    }
}

/// An org with treasury `t`.
pub open spec fn with_treasury(o: Org, t: int) -> Org {
    Org { treasury: Money(t as i64), ..o }
}

/// An org with `q` of `g` in inventory.
pub open spec fn with_inventory(o: Org, g: Good, q: u32) -> Org {
    Org { inventory: o.inventory.spec_set(g, q), ..o }
}

/// A workplace with `m` machines installed.
pub open spec fn with_machines(w: Workplace, m: u32) -> Workplace {
    Workplace { machines: m, ..w }
}

/// `n` is `o` with the row of id `id` replaced by `f` of it (or unchanged
/// where there is none).
pub open spec fn row_changed<T: Keyed>(o: Seq<T>, n: Seq<T>, id: u32, f: spec_fn(T) -> T) -> bool {
    match find(o, id) {
        Some(i) => n == o.update(i, f(o[i])),
        None => n == o,
    }
}

/// `n` is `o` with only its citizens changed, by `f` on the row of `id`.
pub open spec fn citizen_changed(o: World, n: World, id: CitizenId, f: spec_fn(Citizen) -> Citizen) -> bool {
    &&& n == World { citizens: n.citizens, ..o }
    &&& row_changed(o.citizens@, n.citizens@, id.0, f)
}

/// `n` is `o` with only its orgs changed, by `f` on the row of `id`.
pub open spec fn org_changed(o: World, n: World, id: OrgId, f: spec_fn(Org) -> Org) -> bool {
    &&& n == World { orgs: n.orgs, ..o }
    &&& row_changed(o.orgs@, n.orgs@, id.0, f)
}

/// `n` is `o` with only its workplaces changed, by `f` on the row of `id`.
pub open spec fn workplace_changed(o: World, n: World, id: WorkplaceId, f: spec_fn(Workplace) -> Workplace) -> bool {
    &&& n == World { workplaces: n.workplaces, ..o }
    &&& row_changed(o.workplaces@, n.workplaces@, id.0, f)
}

/// The store with `q` of `g`, where there is a store.
pub open spec fn store_with(s: Option<Store>, g: Good, q: spec_fn(u32) -> u32) -> Option<Store> {
    match s {
        Some(st) => Some(Store { stock: st.stock.spec_set(g, q(st.stock.spec_get(g))), ..st }),
        None => None,
    }
}

/// The state stock with `q` of `g`, where there is one.
pub open spec fn state_stock_with(s: Option<StateStock>, g: Good, q: spec_fn(u32) -> u32) -> Option<StateStock> {
    match s {
        Some(st) => Some(StateStock { stock: st.stock.spec_set(g, q(st.stock.spec_get(g))), ..st }),
        None => None,
    }
}

/// The state stock with its till moved by `d`, where there is one.
pub open spec fn till_with(s: Option<StateStock>, d: int) -> Option<StateStock> {
    match s {
        Some(st) => Some(StateStock { till: Money((st.till.0 + d) as i64), ..st }),
        None => None,
    }
}

/// `n` is `o` with `a` added to what `h` holds. A holder that does not exist
/// or cannot hold `a` (escrow, which the market moves itself) leaves `o` as it is.
pub open spec fn credited(o: World, n: World, h: Holder, a: Asset) -> bool {
    match (h, a) {
        (Holder::Citizen(id), Asset::Money(m)) => citizen_changed(
            o,
            n,
            id,
            |c: Citizen| with_balance(c, c.household.balance.0 + m.0),
        ),
        (Holder::Citizen(id), Asset::Good(g, q)) => citizen_changed(
            o,
            n,
            id,
            |c: Citizen| with_pantry(c, g, (c.household.pantry.spec_get(g) + q) as u32),
        ),
        (Holder::Org(id), Asset::Money(m)) => org_changed(o, n, id, |r: Org| with_treasury(r, r.treasury.0 + m.0)),
        (Holder::Org(id), Asset::Good(g, q)) => org_changed(
            o,
            n,
            id,
            |r: Org| with_inventory(r, g, (r.inventory.spec_get(g) + q) as u32),
        ),
        (Holder::Workplace(id), Asset::Good(Good::Machines, q)) => workplace_changed(
            o,
            n,
            id,
            |w: Workplace| with_machines(w, (w.machines + q) as u32),
        ),
        (Holder::Store, Asset::Good(g, q)) => n == World {
            store: store_with(o.store, g, |x: u32| (x + q) as u32),
            ..o
        },
        (Holder::StateStock, Asset::Good(g, q)) => n == World {
            state_stock: state_stock_with(o.state_stock, g, |x: u32| (x + q) as u32),
            ..o
        },
        (Holder::StateStock, Asset::Money(m)) => n == World { state_stock: till_with(o.state_stock, m.0 as int), ..o },
        (Holder::Treasury, Asset::Money(m)) => n == World { treasury: Money((o.treasury.0 + m.0) as i64), ..o },
        _ => n == o,
    }
}

/// `n` is `o` with `a` taken from what `h` holds: money exactly, goods down to
/// zero at most.
pub open spec fn debited(o: World, n: World, h: Holder, a: Asset) -> bool {
    match (h, a) {
        (Holder::Citizen(id), Asset::Money(m)) => citizen_changed(
            o,
            n,
            id,
            |c: Citizen| with_balance(c, c.household.balance.0 - m.0),
        ),
        (Holder::Citizen(id), Asset::Good(g, q)) => citizen_changed(
            o,
            n,
            id,
            |c: Citizen| with_pantry(c, g, sat_sub(c.household.pantry.spec_get(g), q)),
        ),
        (Holder::Org(id), Asset::Money(m)) => org_changed(o, n, id, |r: Org| with_treasury(r, r.treasury.0 - m.0)),
        (Holder::Org(id), Asset::Good(g, q)) => org_changed(
            o,
            n,
            id,
            |r: Org| with_inventory(r, g, sat_sub(r.inventory.spec_get(g), q)),
        ),
        (Holder::Workplace(id), Asset::Good(Good::Machines, q)) => workplace_changed(
            o,
            n,
            id,
            |w: Workplace| with_machines(w, sat_sub(w.machines, q)),
        ),
        (Holder::Store, Asset::Good(g, q)) => n == World {
            store: store_with(o.store, g, |x: u32| sat_sub(x, q)),
            ..o
        },
        (Holder::StateStock, Asset::Good(g, q)) => n == World {
            state_stock: state_stock_with(o.state_stock, g, |x: u32| sat_sub(x, q)),
            ..o
        },
        (Holder::StateStock, Asset::Money(m)) => n == World { state_stock: till_with(o.state_stock, -m.0), ..o },
        (Holder::Treasury, Asset::Money(m)) => n == World { treasury: Money((o.treasury.0 - m.0) as i64), ..o },
        _ => n == o,
    }
}

/// Whether `v` fits an `i64`.
pub open spec fn fits_i64(v: int) -> bool {
    i64::MIN <= v <= i64::MAX
}

/// Whether `v` fits a `u32`.
pub open spec fn fits_u32(v: int) -> bool {
    0 <= v <= u32::MAX
}

/// Adding `a` to what `h` holds stays within the counters' range.
pub open spec fn creditable(w: World, h: Holder, a: Asset) -> bool {
    match (h, a) {
        (Holder::Citizen(id), Asset::Money(m)) => forall|i: int|
            0 <= i < w.citizens@.len() && #[trigger] w.citizens@[i].id == id ==> fits_i64(
                w.citizens@[i].household.balance.0 + m.0,
            ),
        (Holder::Citizen(id), Asset::Good(g, q)) => forall|i: int|
            0 <= i < w.citizens@.len() && #[trigger] w.citizens@[i].id == id ==> fits_u32(
                w.citizens@[i].household.pantry.spec_get(g) + q,
            ),
        (Holder::Org(id), Asset::Money(m)) => forall|i: int|
            0 <= i < w.orgs@.len() && #[trigger] w.orgs@[i].id == id ==> fits_i64(w.orgs@[i].treasury.0 + m.0),
        (Holder::Org(id), Asset::Good(g, q)) => forall|i: int|
            0 <= i < w.orgs@.len() && #[trigger] w.orgs@[i].id == id ==> fits_u32(
                w.orgs@[i].inventory.spec_get(g) + q,
            ),
        (Holder::Workplace(id), Asset::Good(Good::Machines, q)) => forall|i: int|
            0 <= i < w.workplaces@.len() && #[trigger] w.workplaces@[i].id == id ==> fits_u32(
                w.workplaces@[i].machines + q,
            ),
        (Holder::Store, Asset::Good(g, q)) => w.store matches Some(s) ==> fits_u32(s.stock.spec_get(g) + q),
        (Holder::StateStock, Asset::Good(g, q)) => w.state_stock matches Some(s) ==> fits_u32(
            s.stock.spec_get(g) + q,
        ),
        (Holder::StateStock, Asset::Money(m)) => w.state_stock matches Some(s) ==> fits_i64(s.till.0 + m.0),
        (Holder::Treasury, Asset::Money(m)) => fits_i64(w.treasury.0 + m.0),
        _ => true,
    }
}

/// Taking `a` from what `h` holds stays within the counters' range.
pub open spec fn debitable(w: World, h: Holder, a: Asset) -> bool {
    match (h, a) {
        (Holder::Citizen(id), Asset::Money(m)) => forall|i: int|
            0 <= i < w.citizens@.len() && #[trigger] w.citizens@[i].id == id ==> fits_i64(
                w.citizens@[i].household.balance.0 - m.0,
            ),
        (Holder::Org(id), Asset::Money(m)) => forall|i: int|
            0 <= i < w.orgs@.len() && #[trigger] w.orgs@[i].id == id ==> fits_i64(w.orgs@[i].treasury.0 - m.0),
        (Holder::StateStock, Asset::Money(m)) => w.state_stock matches Some(s) ==> fits_i64(s.till.0 - m.0),
        (Holder::Treasury, Asset::Money(m)) => fits_i64(w.treasury.0 - m.0),
        _ => true,
    }
}

/// Replace the citizen at `i` by one with a new balance.
fn set_balance(cs: &mut Vec<Citizen>, i: usize, b: i64)
    requires
        i < old(cs)@.len(),
    ensures
        final(cs)@ == old(cs)@.update(i as int, with_balance(old(cs)@[i as int], b as int)),
{
    let mut c = cs.remove(i);
    c.household.balance = Money(b);
    cs.insert(i, c);
    proof {
        assert(cs@ =~= old(cs)@.update(i as int, with_balance(old(cs)@[i as int], b as int)));
    }
}

/// Replace the citizen at `i` by one with `q` of `g` in the pantry.
fn set_pantry(cs: &mut Vec<Citizen>, i: usize, g: Good, q: u32)
    requires
        i < old(cs)@.len(),
    ensures
        final(cs)@ == old(cs)@.update(i as int, with_pantry(old(cs)@[i as int], g, q)),
{
    let mut c = cs.remove(i);
    c.household.pantry.set(g, q);
    cs.insert(i, c);
    proof {
        assert(cs@ =~= old(cs)@.update(i as int, with_pantry(old(cs)@[i as int], g, q)));
    }
}

/// Replace the org at `i` by one with a new treasury.
fn set_treasury(os: &mut Vec<Org>, i: usize, t: i64)
    requires
        i < old(os)@.len(),
    ensures
        final(os)@ == old(os)@.update(i as int, with_treasury(old(os)@[i as int], t as int)),
{
    let mut o = os.remove(i);
    o.treasury = Money(t);
    os.insert(i, o);
    proof {
        assert(os@ =~= old(os)@.update(i as int, with_treasury(old(os)@[i as int], t as int)));
    }
}

/// Replace the org at `i` by one with `q` of `g` in inventory.
fn set_inventory(os: &mut Vec<Org>, i: usize, g: Good, q: u32)
    requires
        i < old(os)@.len(),
    ensures
        final(os)@ == old(os)@.update(i as int, with_inventory(old(os)@[i as int], g, q)),
{
    let mut o = os.remove(i);
    o.inventory.set(g, q);
    os.insert(i, o);
    proof {
        assert(os@ =~= old(os)@.update(i as int, with_inventory(old(os)@[i as int], g, q)));
    }
}

/// Replace the workplace at `i` by one with `m` machines.
fn set_machines(ws: &mut Vec<Workplace>, i: usize, m: u32)
    requires
        i < old(ws)@.len(),
    ensures
        final(ws)@ == old(ws)@.update(i as int, with_machines(old(ws)@[i as int], m)),
{
    let mut w = ws.remove(i);
    w.machines = m;
    ws.insert(i, w);
    proof {
        assert(ws@ =~= old(ws)@.update(i as int, with_machines(old(ws)@[i as int], m)));
    }
}

/// Add an asset to a holder.
pub fn credit(world: &mut World, holder: Holder, asset: Asset)
    requires
        old(world).wf(),
        creditable(*old(world), holder, asset),
    ensures
        final(world).wf(),
        credited(*old(world), *final(world), holder, asset),
{
    match (holder, asset) {
        (Holder::Citizen(id), Asset::Money(m)) => {
            if let Some(i) = index_of(&world.citizens, id.0) {
                let b = world.citizens[i].household.balance.0;
                proof {
                    lemma_find(world.citizens@, id.0);
                }
                set_balance(&mut world.citizens, i, b + m.0);
                proof {
                    lemma_update_keeps_ids(old(world).citizens@, i as int, world.citizens@[i as int]);
                }
            }
        },
        (Holder::Citizen(id), Asset::Good(g, q)) => {
            if let Some(i) = index_of(&world.citizens, id.0) {
                let have = world.citizens[i].household.pantry.get(g);
                proof {
                    lemma_find(world.citizens@, id.0);
                }
                set_pantry(&mut world.citizens, i, g, have + q);
                proof {
                    lemma_update_keeps_ids(old(world).citizens@, i as int, world.citizens@[i as int]);
                }
            }
        },
        (Holder::Org(id), Asset::Money(m)) => {
            if let Some(i) = index_of(&world.orgs, id.0) {
                let t = world.orgs[i].treasury.0;
                proof {
                    lemma_find(world.orgs@, id.0);
                }
                set_treasury(&mut world.orgs, i, t + m.0);
                proof {
                    lemma_update_keeps_ids(old(world).orgs@, i as int, world.orgs@[i as int]);
            lemma_org_row_lists(old(world).orgs@, i as int, world.orgs@[i as int]);
                }
            }
        },
        (Holder::Org(id), Asset::Good(g, q)) => {
            if let Some(i) = index_of(&world.orgs, id.0) {
                let have = world.orgs[i].inventory.get(g);
                proof {
                    lemma_find(world.orgs@, id.0);
                }
                set_inventory(&mut world.orgs, i, g, have + q);
                proof {
                    lemma_update_keeps_ids(old(world).orgs@, i as int, world.orgs@[i as int]);
            lemma_org_row_lists(old(world).orgs@, i as int, world.orgs@[i as int]);
                }
            }
        },
        (Holder::Workplace(id), Asset::Good(Good::Machines, q)) => {
            if let Some(i) = index_of(&world.workplaces, id.0) {
                let have = world.workplaces[i].machines;
                proof {
                    lemma_find(world.workplaces@, id.0);
                }
                set_machines(&mut world.workplaces, i, have + q);
                proof {
                    lemma_update_keeps_ids(old(world).workplaces@, i as int, world.workplaces@[i as int]);
            lemma_workplace_row_lists(old(world).workplaces@, i as int, world.workplaces@[i as int]);
                }
            }
        },
        (Holder::Store, Asset::Good(g, q)) => {
            let st = world.store.take();
            if let Some(mut s) = st {
                let have = s.stock.get(g);
                s.stock.set(g, have + q);
                world.store = Some(s);
            }
        },
        (Holder::StateStock, Asset::Good(g, q)) => {
            let st = world.state_stock.take();
            if let Some(mut s) = st {
                let have = s.stock.get(g);
                s.stock.set(g, have + q);
                world.state_stock = Some(s);
            }
        },
        (Holder::StateStock, Asset::Money(m)) => {
            let st = world.state_stock.take();
            if let Some(mut s) = st {
                s.till = Money(s.till.0 + m.0);
                world.state_stock = Some(s);
            }
        },
        (Holder::Treasury, Asset::Money(m)) => {
            world.treasury = Money(world.treasury.0 + m.0);
        },
        _ => {},
    }
}

/// `have - q`, or zero where `q` is larger.
fn take_up_to(have: u32, q: u32) -> (r: u32)
    ensures
        r == sat_sub(have, q),
{
    if have >= q {
        have - q
    } else {
        0
    }
}

/// Remove an asset from a holder: money exactly, goods down to zero at most.
pub fn debit(world: &mut World, holder: Holder, asset: Asset)
    requires
        old(world).wf(),
        debitable(*old(world), holder, asset),
    ensures
        final(world).wf(),
        debited(*old(world), *final(world), holder, asset),
{
    match (holder, asset) {
        (Holder::Citizen(id), Asset::Money(m)) => {
            if let Some(i) = index_of(&world.citizens, id.0) {
                let b = world.citizens[i].household.balance.0;
                proof {
                    lemma_find(world.citizens@, id.0);
                }
                set_balance(&mut world.citizens, i, b - m.0);
                proof {
                    lemma_update_keeps_ids(old(world).citizens@, i as int, world.citizens@[i as int]);
                }
            }
        },
        (Holder::Citizen(id), Asset::Good(g, q)) => {
            if let Some(i) = index_of(&world.citizens, id.0) {
                let have = world.citizens[i].household.pantry.get(g);
                proof {
                    lemma_find(world.citizens@, id.0);
                }
                set_pantry(&mut world.citizens, i, g, take_up_to(have, q));
                proof {
                    lemma_update_keeps_ids(old(world).citizens@, i as int, world.citizens@[i as int]);
                }
            }
        },
        (Holder::Org(id), Asset::Money(m)) => {
            if let Some(i) = index_of(&world.orgs, id.0) {
                let t = world.orgs[i].treasury.0;
                proof {
                    lemma_find(world.orgs@, id.0);
                }
                set_treasury(&mut world.orgs, i, t - m.0);
                proof {
                    lemma_update_keeps_ids(old(world).orgs@, i as int, world.orgs@[i as int]);
            lemma_org_row_lists(old(world).orgs@, i as int, world.orgs@[i as int]);
                }
            }
        },
        (Holder::Org(id), Asset::Good(g, q)) => {
            if let Some(i) = index_of(&world.orgs, id.0) {
                let have = world.orgs[i].inventory.get(g);
                proof {
                    lemma_find(world.orgs@, id.0);
                }
                set_inventory(&mut world.orgs, i, g, take_up_to(have, q));
                proof {
                    lemma_update_keeps_ids(old(world).orgs@, i as int, world.orgs@[i as int]);
            lemma_org_row_lists(old(world).orgs@, i as int, world.orgs@[i as int]);
                }
            }
        },
        (Holder::Workplace(id), Asset::Good(Good::Machines, q)) => {
            if let Some(i) = index_of(&world.workplaces, id.0) {
                let have = world.workplaces[i].machines;
                proof {
                    lemma_find(world.workplaces@, id.0);
                }
                set_machines(&mut world.workplaces, i, take_up_to(have, q));
                proof {
                    lemma_update_keeps_ids(old(world).workplaces@, i as int, world.workplaces@[i as int]);
            lemma_workplace_row_lists(old(world).workplaces@, i as int, world.workplaces@[i as int]);
                }
            }
        },
        (Holder::Store, Asset::Good(g, q)) => {
            let st = world.store.take();
            if let Some(mut s) = st {
                let have = s.stock.get(g);
                s.stock.set(g, take_up_to(have, q));
                world.store = Some(s);
            }
        },
        (Holder::StateStock, Asset::Good(g, q)) => {
            let st = world.state_stock.take();
            if let Some(mut s) = st {
                let have = s.stock.get(g);
                s.stock.set(g, take_up_to(have, q));
                world.state_stock = Some(s);
            }
        },
        (Holder::StateStock, Asset::Money(m)) => {
            let st = world.state_stock.take();
            if let Some(mut s) = st {
                s.till = Money(s.till.0 - m.0);
                world.state_stock = Some(s);
            }
        },
        (Holder::Treasury, Asset::Money(m)) => {
            world.treasury = Money(world.treasury.0 - m.0);
        },
        _ => {},
    }
}

/// `n` is `o` with `x` put in its place by id: replacing the row with its id,
/// or inserted where none had it.
pub open spec fn upserted<T: Keyed>(o: Seq<T>, n: Seq<T>, x: T) -> bool {
    match find(o, x.key_of()) {
        Some(j) => n == o.update(j, x),
        None => exists|j: int| 0 <= j <= o.len() && n == o.insert(j, x),
    }
}

/// The ledger totals with `x` more money minted.
pub open spec fn minted_meta(m: LedgerMeta, x: Money) -> LedgerMeta {
    LedgerMeta { minted: Money((m.minted.0 + x.0) as i64), ..m }
}

/// The ledger totals with `x` more money burned.
pub open spec fn burned_meta(m: LedgerMeta, x: Money) -> LedgerMeta {
    LedgerMeta { burned_money: Money((m.burned_money.0 + x.0) as i64), ..m }
}

/// A running total per good with `q` more of `g`.
pub open spec fn counted(t: PerGood<u64>, g: Good, q: u32) -> PerGood<u64> {
    t.spec_set(g, (t.spec_get(g) + q) as u64)
}

/// The ledger totals after seeding `a`.
pub open spec fn seeded_meta(m: LedgerMeta, a: Asset) -> LedgerMeta {
    match a {
        Asset::Money(x) => minted_meta(m, x),
        Asset::Good(g, q) => LedgerMeta { seeded: counted(m.seeded, g, q), ..m },
    }
}

/// The next id after `id` where `id` is at or past `next`; else `next`.
pub open spec fn bumped(next: u32, id: u32) -> u32 {
    if next <= id {
        (id + 1) as u32
    } else {
        next
    }
}

/// A citizen with the given flags.
pub open spec fn with_flags(c: Citizen, f: CitizenFlags) -> Citizen {
    Citizen { flags: f, ..c }
}

/// Flags with hardship and destitution set where given.
pub open spec fn flags_set(f: CitizenFlags, hardship: Option<bool>, destitute: Option<bool>) -> CitizenFlags {
    CitizenFlags {
        in_hardship: match hardship {
            Some(b) => b,
            None => f.in_hardship,
        },
        destitute: match destitute {
            Some(b) => b,
            None => f.destitute,
        },
        options_narrowed: match destitute {
            Some(b) => b,
            None => f.options_narrowed,
        },
        defaulted: f.defaulted,
    }
}

/// A citizen last seen at `tick`.
pub open spec fn with_seen(c: Citizen, tick: Tick) -> Citizen {
    Citizen { last_seen_tick: tick, ..c }
}

/// A citizen dormant or not.
pub open spec fn with_dormant(c: Citizen, dormant: bool) -> Citizen {
    Citizen { dormant, ..c }
}

/// Whether `p` is a party to `k`.
pub open spec fn party_to(k: Contract, p: Party) -> bool {
    k.parties.0 == p || k.parties.1 == p
}

/// `n` is `o` with every contract that `p` is party to and that stands at
/// `from` moved to `to`.
pub open spec fn statuses_moved(o: Seq<Contract>, n: Seq<Contract>, p: Party, from: ContractStatus, to: ContractStatus) -> bool {
    &&& n.len() == o.len()
    &&& forall|i: int| 0 <= i < o.len() ==> #[trigger] n[i] == moved_status(o[i], p, from, to)
}

/// `k` moved to `to` if `p` is party to it and it stands at `from`.
pub open spec fn moved_status(k: Contract, p: Party, from: ContractStatus, to: ContractStatus) -> Contract {
    if party_to(k, p) && k.status == from {
        Contract { status: to, ..k }
    } else {
        k
    }
}

/// A fresh citizen's meters.
pub open spec fn start_needs(w: World) -> Needs {
    Needs {
        food: (w.params.needs.meter_start * 10) as u16,
        shelter: (w.params.needs.meter_start * 10) as u16,
        comfort: (w.params.needs.meter_start * 10) as u16,
        low_food_ticks_this_cycle: 0,
        consecutive_hardship_cycles: 0,
    }
}

/// `c` is the citizen that joining makes in `w`.
pub open spec fn is_joined_citizen(
    c: Citizen,
    w: World,
    id: CitizenId,
    handle: Seq<char>,
    kind: CitizenKind,
    endowment: Money,
    dwelling: Option<DwellingId>,
) -> bool {
    &&& c.id == id
    &&& c.handle@ == handle
    &&& c.kind == kind
    &&& c.joined_tick == w.meta.tick
    &&& c.last_seen_tick == w.meta.tick
    &&& !c.dormant
    &&& c.household == Household { balance: endowment, pantry: PerGood::<u32>::spec_filled(0), dwelling }
    &&& c.labor.allocations@.len() == 0
    &&& c.labor.budget == w.params.labor.base_budget_hours
    &&& c.labor.fatigue_debt == 0
    &&& c.labor.consecutive_high_effort_cycles == 0
    &&& c.needs == start_needs(w)
    &&& c.plan == (crate::world::StandingPlan {
        keep_food_at_least: w.params.householder.keep_food_at_least,
        max_food_price: None,
        keep_balance_at_least: Money(0),
        vote_default: crate::world::VoteDefault::Abstain,
    })
    &&& c.flags == CitizenFlags { in_hardship: false, destitute: false, options_narrowed: false, defaulted: false }
    &&& c.contribution.tick_hours_total == 0
    &&& c.wages_total.0 == 0
}

/// A dwelling occupied by `c`.
pub open spec fn with_occupant(d: Dwelling, c: CitizenId) -> Dwelling {
    Dwelling { occupant: Some(c), ..d }
}

/// What joining does: the citizen is put in the table, the endowment minted,
/// the dwelling (if any) occupied, and the next citizen id moved past the new one.
pub open spec fn joined(
    o: World,
    n: World,
    id: CitizenId,
    handle: Seq<char>,
    kind: CitizenKind,
    endowment: Money,
    dwelling: Option<DwellingId>,
) -> bool {
    &&& n == World {
        citizens: n.citizens,
        dwellings: n.dwellings,
        ledger_meta: minted_meta(o.ledger_meta, endowment),
        next: crate::world::NextIds { citizen: CitizenId(bumped(o.next.citizen.0, id.0)), ..o.next },
        ..o
    }
    &&& exists|c: Citizen| is_joined_citizen(c, o, id, handle, kind, endowment, dwelling) && upserted(o.citizens@, n.citizens@, c)
    &&& match dwelling {
        Some(d) => row_changed(o.dwellings@, n.dwellings@, d.0, |x: Dwelling| with_occupant(x, id)),
        None => n.dwellings@ == o.dwellings@,
    }
}

/// Whether `w` has a citizen `id`.
pub open spec fn has_citizen(w: World, id: CitizenId) -> bool {
    find(w.citizens@, id.0) is Some
}

/// Whether `w` has an org `id`.
pub open spec fn has_org(w: World, id: OrgId) -> bool {
    find(w.orgs@, id.0) is Some
}

/// The org owning workplace `id`, if it exists.
pub open spec fn org_of_workplace(w: World, id: WorkplaceId) -> Option<OrgId> {
    match find(w.workplaces@, id.0) {
        Some(i) => Some(w.workplaces@[i].org),
        None => None,
    }
}

/// `n` is `o` after `a` moves from `from` to `to`.
pub open spec fn moved(o: World, n: World, from: Holder, to: Holder, a: Asset) -> bool {
    exists|mid: World| #[trigger] moved_via(o, mid, n, from, to, a)
}

/// A move, with `mid` the world once `a` has left `from`.
pub open spec fn moved_via(o: World, mid: World, n: World, from: Holder, to: Holder, a: Asset) -> bool {
    debited(o, mid, from, a) && credited(mid, n, to, a)
}

/// `a` can move from `from` to `to` without leaving the counters' range.
pub open spec fn movable(o: World, from: Holder, to: Holder, a: Asset) -> bool {
    &&& debitable(o, from, a)
    &&& creditable(o, to, a)
}

/// A debit leaves every credit that was in range in range.
pub proof fn lemma_creditable_after_debit(o: World, mid: World, from: Holder, to: Holder, a: Asset)
    requires
        o.wf(),
        debitable(o, from, a),
        creditable(o, to, a),
        debited(o, mid, from, a),
    ensures
        creditable(mid, to, a),
{
    match (from, a) {
        (Holder::Citizen(id), _) => {
            lemma_find(o.citizens@, id.0);
            if let Some(j) = find(o.citizens@, id.0) {
                assert(o.citizens@[j].id == id);
            }
        },
        (Holder::Org(id), _) => {
            lemma_find(o.orgs@, id.0);
            if let Some(j) = find(o.orgs@, id.0) {
                assert(o.orgs@[j].id == id);
            }
        },
        (Holder::Workplace(id), _) => {
            lemma_find(o.workplaces@, id.0);
            if let Some(j) = find(o.workplaces@, id.0) {
                assert(o.workplaces@[j].id == id);
            }
        },
        _ => {},
    }
}

/// Move `a` from `from` to `to`.
fn move_asset(world: &mut World, from: Holder, to: Holder, a: Asset)
    requires
        old(world).wf(),
        movable(*old(world), from, to, a),
    ensures
        final(world).wf(),
        moved(*old(world), *final(world), from, to, a),
{
    debit(world, from, a);
    let ghost mid = *world;
    proof {
        lemma_creditable_after_debit(*old(world), mid, from, to, a);
    }
    credit(world, to, a);
    assert(moved_via(*old(world), mid, *world, from, to, a));
}

/// Put a new citizen in the society.
fn join(
    world: &mut World,
    id: CitizenId,
    handle: &String,
    kind: CitizenKind,
    endowment: Money,
    dwelling: Option<DwellingId>,
)
    requires
        old(world).wf(),
        fits_i64(old(world).ledger_meta.minted.0 + endowment.0),
        old(world).next.citizen.0 <= id.0 ==> id.0 < u32::MAX,
    ensures
        final(world).wf(),
        joined(*old(world), *final(world), id, handle@, kind, endowment, dwelling),
{
    let tick = world.meta.tick;
    let start: u16 = world.params.needs.meter_start as u16 * 10;
    let citizen = Citizen {
        id,
        handle: handle.clone(),
        kind,
        joined_tick: tick,
        last_seen_tick: tick,
        dormant: false,
        household: Household { balance: endowment, pantry: PerGood::filled(0), dwelling },
        labor: LaborState {
            allocations: Vec::new(),
            budget: world.params.labor.base_budget_hours,
            fatigue_debt: 0,
            consecutive_high_effort_cycles: 0,
        },
        needs: Needs {
            food: start,
            shelter: start,
            comfort: start,
            low_food_ticks_this_cycle: 0,
            consecutive_hardship_cycles: 0,
        },
        plan: crate::world::StandingPlan {
            keep_food_at_least: world.params.householder.keep_food_at_least,
            max_food_price: None,
            keep_balance_at_least: Money(0),
            vote_default: crate::world::VoteDefault::Abstain,
        },
        flags: CitizenFlags { in_hardship: false, destitute: false, options_narrowed: false, defaulted: false },
        contribution: crate::world::Contribution { tick_hours_total: 0 },
        wages_total: Money(0),
    };
    assert(is_joined_citizen(citizen, *old(world), id, handle@, kind, endowment, dwelling));
    world.ledger_meta.minted = Money(world.ledger_meta.minted.0 + endowment.0);
    if let Some(d) = dwelling {
        if let Some(i) = index_of(&world.dwellings, d.0) {
            let x = world.dwellings[i];
            world.dwellings.set(i, Dwelling { occupant: Some(id), ..x });
            proof {
                lemma_update_keeps_ids(old(world).dwellings@, i as int, world.dwellings@[i as int]);
            }
        }
    }
    upsert(&mut world.citizens, citizen);
    if world.next.citizen.0 <= id.0 {
        world.next.citizen = id.next();
    }
}

/// Replace the citizen at `i` by `f` of it, for one of the plain changes.
fn set_citizen_flags(world: &mut World, id: CitizenId, hardship: Option<bool>, destitute: Option<bool>)
    requires
        old(world).wf(),
    ensures
        final(world).wf(),
        citizen_changed(
            *old(world),
            *final(world),
            id,
            |c: Citizen| with_flags(c, flags_set(c.flags, hardship, destitute)),
        ),
{
    if let Some(i) = index_of(&world.citizens, id.0) {
        let mut c = world.citizens.remove(i);
        if let Some(b) = hardship {
            c.flags.in_hardship = b;
        }
        if let Some(b) = destitute {
            c.flags.destitute = b;
            c.flags.options_narrowed = b;
        }
        world.citizens.insert(i, c);
        proof {
            assert(world.citizens@ =~= old(world).citizens@.update(
                i as int,
                with_flags(old(world).citizens@[i as int], flags_set(old(world).citizens@[i as int].flags, hardship, destitute)),
            ));
            lemma_update_keeps_ids(old(world).citizens@, i as int, world.citizens@[i as int]);
        }
    }
}

/// Record when a citizen was last seen.
fn set_seen(world: &mut World, id: CitizenId, tick: Tick)
    requires
        old(world).wf(),
    ensures
        final(world).wf(),
        citizen_changed(*old(world), *final(world), id, |c: Citizen| with_seen(c, tick)),
{
    if let Some(i) = index_of(&world.citizens, id.0) {
        let mut c = world.citizens.remove(i);
        c.last_seen_tick = tick;
        world.citizens.insert(i, c);
        proof {
            assert(world.citizens@ =~= old(world).citizens@.update(i as int, with_seen(old(world).citizens@[i as int], tick)));
            lemma_update_keeps_ids(old(world).citizens@, i as int, world.citizens@[i as int]);
        }
    }
}

/// Mark a citizen dormant or not.
fn set_dormant(world: &mut World, id: CitizenId, dormant: bool)
    requires
        old(world).wf(),
    ensures
        final(world).wf(),
        citizen_changed(*old(world), *final(world), id, |c: Citizen| with_dormant(c, dormant)),
{
    if let Some(i) = index_of(&world.citizens, id.0) {
        let mut c = world.citizens.remove(i);
        c.dormant = dormant;
        world.citizens.insert(i, c);
        proof {
            assert(world.citizens@ =~= old(world).citizens@.update(i as int, with_dormant(old(world).citizens@[i as int], dormant)));
            lemma_update_keeps_ids(old(world).citizens@, i as int, world.citizens@[i as int]);
        }
    }
}

/// Move every contract the citizen is party to from one status to another.
fn set_contract_status(world: &mut World, citizen: CitizenId, from: ContractStatus, to: ContractStatus)
    requires
        old(world).wf(),
    ensures
        final(world).wf(),
        *final(world) == (World { contracts: final(world).contracts, ..*old(world) }),
        statuses_moved(old(world).contracts@, final(world).contracts@, Party::Citizen(citizen), from, to),
{
    let p = Party::Citizen(citizen);
    let mut i: usize = 0;
    while i < world.contracts.len()
        invariant
            i <= world.contracts@.len(),
            world.contracts@.len() == old(world).contracts@.len(),
            *world == (World { contracts: world.contracts, ..*old(world) }),
            forall|k: int|
                0 <= k < i ==> #[trigger] world.contracts@[k] == moved_status(old(world).contracts@[k], p, from, to),
            forall|k: int| i <= k < world.contracts@.len() ==> #[trigger] world.contracts@[k] == old(world).contracts@[k],
        decreases world.contracts@.len() - i,
    {
        let k = world.contracts[i];
        if (k.parties.0 == p || k.parties.1 == p) && k.status == from {
            world.contracts.set(i, Contract { status: to, ..k });
        }
        i = i + 1;
    }
    proof {
        assert forall|a: int, b: int| 0 <= a < b < world.contracts@.len() implies world.contracts@[a].key_of()
            < world.contracts@[b].key_of() by {
            assert(old(world).contracts@[a].key_of() < old(world).contracts@[b].key_of());
        }
    }
}

/// Two ownerships read alike.
pub open spec fn same_ownership(a: Ownership, b: Ownership) -> bool {
    match (a, b) {
        (Ownership::Shares { issued: i, holdings: h }, Ownership::Shares { issued: j, holdings: k }) => i == j && h@
            == k@,
        (Ownership::Members, Ownership::Members) => true,
        (Ownership::Society, Ownership::Society) => true,
        _ => false,
    }
}

/// A copy of an ownership.
pub fn copy_ownership(o: &Ownership) -> (r: Ownership)
    ensures
        same_ownership(r, *o),
{
    match o {
        Ownership::Shares { issued, holdings } => Ownership::Shares {
            issued: *issued,
            holdings: crate::world::copy_list(holdings),
        },
        Ownership::Members => Ownership::Members,
        Ownership::Society => Ownership::Society,
    }
}

/// `r` is the org that founding makes in `w`.
pub open spec fn is_founded_org(
    r: Org,
    w: World,
    id: OrgId,
    kind: OrgKind,
    name: Seq<char>,
    founder: Option<CitizenId>,
    ownership: Ownership,
    manager: Option<CitizenId>,
) -> bool {
    &&& r.id == id
    &&& r.kind == kind
    &&& r.name@ == name
    &&& same_ownership(r.ownership, ownership)
    &&& r.manager == manager
    &&& r.treasury.0 == 0
    &&& r.inventory == PerGood::<u32>::spec_filled(0)
    &&& r.workplaces@.len() == 0
    &&& r.employees@.len() == 0
    &&& r.members@ == match founder {
        Some(f) => seq![f],
        None => Seq::<CitizenId>::empty(),
    }
    &&& r.founded_tick == w.meta.tick
    &&& !r.payment_missed
    &&& r.declared_dividend is None
    &&& r.surplus_base.0 == 0
    &&& r.share_rule is None
    &&& r.member_since@.len() == 0
}

/// What founding does: the founder pays the fee, which is burned, the org is
/// put in the table, and the next org id moves past it.
pub open spec fn founded(
    o: World,
    n: World,
    id: OrgId,
    kind: OrgKind,
    name: Seq<char>,
    founder: Option<CitizenId>,
    ownership: Ownership,
    manager: Option<CitizenId>,
    fee: Money,
) -> bool {
    exists|mid: World| #[trigger] founded_via(o, mid, n, id, kind, name, founder, ownership, manager, fee)
}

/// Founding, with `mid` the world once the fee is paid.
pub open spec fn founded_via(
    o: World,
    mid: World,
    n: World,
    id: OrgId,
    kind: OrgKind,
    name: Seq<char>,
    founder: Option<CitizenId>,
    ownership: Ownership,
    manager: Option<CitizenId>,
    fee: Money,
) -> bool {
    &&& match founder {
        Some(f) => debited(o, mid, Holder::Citizen(f), Asset::Money(fee)),
        None => mid == o,
    }
    &&& n == World {
        orgs: n.orgs,
        ledger_meta: burned_meta(mid.ledger_meta, fee),
        next: crate::world::NextIds { org: OrgId(bumped(mid.next.org.0, id.0)), ..mid.next },
        ..mid
    }
    &&& exists|r: Org| is_founded_org(r, mid, id, kind, name, founder, ownership, manager) && upserted(mid.orgs@, n.orgs@, r)
}

/// Found an org.
fn found_org(
    world: &mut World,
    id: OrgId,
    kind: OrgKind,
    name: &String,
    founder: Option<CitizenId>,
    ownership: &Ownership,
    manager: Option<CitizenId>,
    fee: Money,
)
    requires
        old(world).wf(),
        founder matches Some(f) ==> debitable(*old(world), Holder::Citizen(f), Asset::Money(fee)),
        fits_i64(old(world).ledger_meta.burned_money.0 + fee.0),
        old(world).next.org.0 <= id.0 ==> id.0 < u32::MAX,
    ensures
        final(world).wf(),
        founded(*old(world), *final(world), id, kind, name@, founder, *ownership, manager, fee),
{
    if let Some(f) = founder {
        debit(world, Holder::Citizen(f), Asset::Money(fee));
    }
    let ghost mid = *world;
    world.ledger_meta.burned_money = Money(world.ledger_meta.burned_money.0 + fee.0);
    let members = match founder {
        Some(f) => vec![f],
        None => Vec::new(),
    };
    let r = Org {
        id,
        kind,
        name: name.clone(),
        ownership: copy_ownership(ownership),
        manager,
        treasury: Money(0),
        inventory: PerGood::filled(0),
        workplaces: Vec::new(),
        employees: Vec::new(),
        members,
        founded_tick: world.meta.tick,
        payment_missed: false,
        declared_dividend: None,
        surplus_base: Money(0),
        share_rule: None,
        member_since: Vec::new(),
    };
    assert(r.members@ == match founder {
        Some(f) => seq![f],
        None => Seq::<CitizenId>::empty(),
    });
    assert(is_founded_org(r, mid, id, kind, name@, founder, *ownership, manager));
    let ghost gr = r;
    let ghost before = world.orgs@;
    upsert(&mut world.orgs, r);
    assert(upserted(before, world.orgs@, gr));
    proof {
        assert(crate::table::ids_increasing(gr.members@));
        assert(gr.workplaces@.no_duplicates());
        lemma_upserted_org_lists(before, world.orgs@, gr);
    }
    if world.next.org.0 <= id.0 {
        world.next.org = id.next();
    }
    assert(founded_via(*old(world), mid, *world, id, kind, name@, founder, *ownership, manager, fee));
}

/// A slot taken by `wp`.
pub open spec fn with_slot_taken(x: crate::world::Slot, wp: WorkplaceId) -> crate::world::Slot {
    crate::world::Slot { workplace: Some(wp), ..x }
}

/// `x` is the workplace that adding makes.
pub open spec fn is_added_workplace(x: Workplace, id: WorkplaceId, org: OrgId, kind: WorkplaceKind, slot: Option<SlotId>) -> bool {
    &&& x.id == id
    &&& x.kind == kind
    &&& x.org == org
    &&& x.slot == slot
    &&& x.machines == 0
    &&& x.workers@.len() == 0
    &&& x.wage_step == 0
}

/// `n` is `o` with `wp` listed among the workplaces of org `org`.
pub open spec fn workplace_listed(o: Seq<Org>, n: Seq<Org>, org: OrgId, wp: WorkplaceId) -> bool {
    match find(o, org.0) {
        Some(i) => {
            &&& n.len() == o.len()
            &&& forall|k: int| 0 <= k < o.len() && k != i ==> n[k] == o[k]
            &&& n[i] == Org { workplaces: n[i].workplaces, ..o[i] }
            &&& n[i].workplaces@ == if o[i].workplaces@.contains(wp) {
                o[i].workplaces@
            } else {
                o[i].workplaces@.push(wp)
            }
        },
        None => n == o,
    }
}

/// What adding a workplace does: the org's materials are consumed, the
/// workplace is put in the table and listed with its org, its slot (if any)
/// taken, and the next workplace id moved past it.
pub open spec fn workplace_added(
    o: World,
    n: World,
    id: WorkplaceId,
    org: OrgId,
    kind: WorkplaceKind,
    slot: Option<SlotId>,
    materials: u32,
) -> bool {
    exists|mid: World| #[trigger] workplace_added_via(o, mid, n, id, org, kind, slot, materials)
}

/// Adding a workplace, with `mid` the world once the materials are consumed.
pub open spec fn workplace_added_via(
    o: World,
    mid: World,
    n: World,
    id: WorkplaceId,
    org: OrgId,
    kind: WorkplaceKind,
    slot: Option<SlotId>,
    materials: u32,
) -> bool {
    &&& debited(o, mid, Holder::Org(org), Asset::Good(Good::Materials, materials))
    &&& n == World {
        workplaces: n.workplaces,
        orgs: n.orgs,
        land: crate::world::LandRegistry { slots: n.land.slots, ..mid.land },
        ledger_meta: LedgerMeta { consumed: counted(mid.ledger_meta.consumed, Good::Materials, materials), ..mid.ledger_meta },
        next: crate::world::NextIds { workplace: WorkplaceId(bumped(mid.next.workplace.0, id.0)), ..mid.next },
        ..mid
    }
    &&& exists|x: Workplace| is_added_workplace(x, id, org, kind, slot) && upserted(mid.workplaces@, n.workplaces@, x)
    &&& workplace_listed(mid.orgs@, n.orgs@, org, id)
    &&& match slot {
        Some(s) => row_changed(mid.land.slots@, n.land.slots@, s.0, |x: crate::world::Slot| with_slot_taken(x, id)),
        None => n.land.slots@ == mid.land.slots@,
    }
}

/// Whether `v` lists `x`.
fn lists(v: &Vec<WorkplaceId>, x: WorkplaceId) -> (b: bool)
    ensures
        b == v@.contains(x),
{
    let mut i: usize = 0;
    while i < v.len()
        invariant
            i <= v.len(),
            forall|k: int| 0 <= k < i ==> v@[k] != x,
        decreases v.len() - i,
    {
        if v[i] == x {
            assert(v@[i as int] == x);
            return true;
        }
        i = i + 1;
    }
    false
}

/// Add a workplace to an org.
fn add_workplace(
    world: &mut World,
    id: WorkplaceId,
    org: OrgId,
    kind: WorkplaceKind,
    slot: Option<SlotId>,
    materials: u32,
)
    requires
        old(world).wf(),
        old(world).ledger_meta.consumed.spec_get(Good::Materials) + materials <= u64::MAX,
        old(world).next.workplace.0 <= id.0 ==> id.0 < u32::MAX,
    ensures
        final(world).wf(),
        workplace_added(*old(world), *final(world), id, org, kind, slot, materials),
{
    debit(world, Holder::Org(org), Asset::Good(Good::Materials, materials));
    let ghost mid = *world;
    LedgerMeta::add(&mut world.ledger_meta.consumed, Good::Materials, materials);
    let x = Workplace { id, kind, org, slot, machines: 0, workers: Vec::new(), wage_step: 0 };
    assert(is_added_workplace(x, id, org, kind, slot));
    let ghost wbefore = world.workplaces@;
    upsert(&mut world.workplaces, x);
    proof {
        lemma_upserted_workplace_lists(wbefore, world.workplaces@, x);
    }
    if let Some(i) = index_of(&world.orgs, org.0) {
        let mut r = world.orgs.remove(i);
        proof {
            assert(crate::world::org_lists_ok(mid.orgs@[i as int]));
        }
        if !lists(&r.workplaces, id) {
            proof {
                lemma_push_fresh(r.workplaces@, id);
            }
            r.workplaces.push(id);
        }
        world.orgs.insert(i, r);
        proof {
            assert(world.orgs@ =~= mid.orgs@.update(i as int, world.orgs@[i as int]));
            lemma_update_keeps_ids(mid.orgs@, i as int, world.orgs@[i as int]);
            lemma_org_row_lists(mid.orgs@, i as int, world.orgs@[i as int]);
        }
    }
    if let Some(sl) = slot {
        if let Some(i) = index_of(&world.land.slots, sl.0) {
            let x = world.land.slots[i];
            world.land.slots.set(i, crate::world::Slot { workplace: Some(id), ..x });
            proof {
                lemma_update_keeps_ids(mid.land.slots@, i as int, world.land.slots@[i as int]);
            }
        }
    }
    if world.next.workplace.0 <= id.0 {
        world.next.workplace = id.next();
    }
    assert(workplace_added_via(*old(world), mid, *world, id, org, kind, slot, materials));
}

/// Units of `g` a workplace's org holds once production has taken its inputs
/// and, where it made anything, added its output.
pub open spec fn produced_count(inv: GoodCounts, inputs: GoodCounts, output: Good, units: u32, g: Good) -> u32 {
    let after = sat_sub(inv.spec_get(g), inputs.spec_get(g));
    if units > 0 && g == output {
        (after + units) as u32
    } else {
        after
    }
}

/// The inventory after production.
pub open spec fn produced_inventory(inv: GoodCounts, inputs: GoodCounts, output: Good, units: u32) -> GoodCounts {
    PerGood {
        grain: produced_count(inv, inputs, output, units, Good::Grain),
        ore: produced_count(inv, inputs, output, units, Good::Ore),
        materials: produced_count(inv, inputs, output, units, Good::Materials),
        food: produced_count(inv, inputs, output, units, Good::Food),
        wares: produced_count(inv, inputs, output, units, Good::Wares),
        machines: produced_count(inv, inputs, output, units, Good::Machines),
    }
}

/// A running total with each good's count added.
pub open spec fn counted_all(t: PerGood<u64>, c: GoodCounts) -> PerGood<u64> {
    PerGood {
        grain: (t.grain + c.grain) as u64,
        ore: (t.ore + c.ore) as u64,
        materials: (t.materials + c.materials) as u64,
        food: (t.food + c.food) as u64,
        wares: (t.wares + c.wares) as u64,
        machines: (t.machines + c.machines) as u64,
    }
}

/// The ledger totals after production.
pub open spec fn produced_meta(m: LedgerMeta, inputs: GoodCounts, output: Good, units: u32) -> LedgerMeta {
    LedgerMeta {
        consumed: counted_all(m.consumed, inputs),
        produced: if units > 0 {
            counted(m.produced, output, units)
        } else {
            m.produced
        },
        ..m
    }
}

/// What production does at a workplace: its org's inputs are consumed and
/// its output added; nothing where the workplace does not exist.
pub open spec fn production(o: World, n: World, wp: WorkplaceId, output: Good, units: u32, inputs: GoodCounts) -> bool {
    match org_of_workplace(o, wp) {
        Some(org) => {
            &&& n == World { orgs: n.orgs, ledger_meta: produced_meta(o.ledger_meta, inputs, output, units), ..o }
            &&& row_changed(
                o.orgs@,
                n.orgs@,
                org.0,
                |r: Org| Org { inventory: produced_inventory(r.inventory, inputs, output, units), ..r },
            )
        },
        None => n == o,
    }
}

/// The inventory after production.
fn after_production(inv: GoodCounts, inputs: GoodCounts, output: Good, units: u32) -> (r: GoodCounts)
    requires
        units > 0 ==> inv.spec_get(output) + units <= u32::MAX,
    ensures
        r == produced_inventory(inv, inputs, output, units),
{
    let mut r = PerGood {
        grain: take_up_to(inv.grain, inputs.grain),
        ore: take_up_to(inv.ore, inputs.ore),
        materials: take_up_to(inv.materials, inputs.materials),
        food: take_up_to(inv.food, inputs.food),
        wares: take_up_to(inv.wares, inputs.wares),
        machines: take_up_to(inv.machines, inputs.machines),
    };
    if units > 0 {
        let have = r.get(output);
        r.set(output, have + units);
    }
    r
}

/// Whether production's totals stay within the counters' range.
pub open spec fn production_fits(w: World, wp: WorkplaceId, output: Good, units: u32, inputs: GoodCounts) -> bool {
    &&& forall|g: Good| #[trigger] w.ledger_meta.consumed.spec_get(g) + inputs.spec_get(g) <= u64::MAX
    &&& w.ledger_meta.produced.spec_get(output) + units <= u64::MAX
    &&& forall|i: int|
        0 <= i < w.orgs@.len() && org_of_workplace(w, wp) == Some(#[trigger] w.orgs@[i].id) ==> w.orgs@[i].inventory.spec_get(
            output,
        ) + units <= u32::MAX
}

/// Record a workplace's production.
fn produce(world: &mut World, wp: WorkplaceId, output: Good, units: u32, inputs: GoodCounts)
    requires
        old(world).wf(),
        production_fits(*old(world), wp, output, units, inputs),
    ensures
        final(world).wf(),
        production(*old(world), *final(world), wp, output, units, inputs),
{
    let org = match index_of(&world.workplaces, wp.0) {
        Some(i) => world.workplaces[i].org,
        None => {
            return;
        },
    };
    proof {
        lemma_find(world.workplaces@, wp.0);
    }
    if let Some(i) = index_of(&world.orgs, org.0) {
        proof {
            lemma_find(world.orgs@, org.0);
        }
        let mut r = world.orgs.remove(i);
        r.inventory = after_production(r.inventory, inputs, output, units);
        world.orgs.insert(i, r);
        proof {
            assert(world.orgs@ =~= old(world).orgs@.update(
                i as int,
                Org {
                    inventory: produced_inventory(old(world).orgs@[i as int].inventory, inputs, output, units),
                    ..old(world).orgs@[i as int]
                },
            ));
            lemma_update_keeps_ids(old(world).orgs@, i as int, world.orgs@[i as int]);
            lemma_org_row_lists(old(world).orgs@, i as int, world.orgs@[i as int]);
        }
    }
    let c = world.ledger_meta.consumed;
    assert(c.grain + inputs.grain <= u64::MAX && c.ore + inputs.ore <= u64::MAX && c.materials + inputs.materials
        <= u64::MAX) by {
        assert(c.spec_get(Good::Grain) + inputs.spec_get(Good::Grain) <= u64::MAX);
        assert(c.spec_get(Good::Ore) + inputs.spec_get(Good::Ore) <= u64::MAX);
        assert(c.spec_get(Good::Materials) + inputs.spec_get(Good::Materials) <= u64::MAX);
    }
    assert(c.food + inputs.food <= u64::MAX && c.wares + inputs.wares <= u64::MAX && c.machines + inputs.machines
        <= u64::MAX) by {
        assert(c.spec_get(Good::Food) + inputs.spec_get(Good::Food) <= u64::MAX);
        assert(c.spec_get(Good::Wares) + inputs.spec_get(Good::Wares) <= u64::MAX);
        assert(c.spec_get(Good::Machines) + inputs.spec_get(Good::Machines) <= u64::MAX);
    }
    world.ledger_meta.consumed = PerGood {
        grain: c.grain + inputs.grain as u64,
        ore: c.ore + inputs.ore as u64,
        materials: c.materials + inputs.materials as u64,
        food: c.food + inputs.food as u64,
        wares: c.wares + inputs.wares as u64,
        machines: c.machines + inputs.machines as u64,
    };
    if units > 0 {
        LedgerMeta::add(&mut world.ledger_meta.produced, output, units);
    }
}

/// A dwelling owned by `to`.
pub open spec fn with_owner(d: Dwelling, to: Owner) -> Dwelling {
    Dwelling { owner: to, ..d }
}

/// Give a dwelling a new owner.
fn transfer_dwelling(world: &mut World, d: DwellingId, to: Owner)
    requires
        old(world).wf(),
    ensures
        final(world).wf(),
        *final(world) == (World { dwellings: final(world).dwellings, ..*old(world) }),
        row_changed(old(world).dwellings@, final(world).dwellings@, d.0, |x: Dwelling| with_owner(x, to)),
{
    if let Some(i) = index_of(&world.dwellings, d.0) {
        let x = world.dwellings[i];
        world.dwellings.set(i, Dwelling { owner: to, ..x });
        proof {
            lemma_update_keeps_ids(old(world).dwellings@, i as int, world.dwellings@[i as int]);
        }
    }
}

/// An org with a manager.
pub open spec fn with_manager(r: Org, m: Option<CitizenId>) -> Org {
    Org { manager: m, ..r }
}

/// An org with a declared dividend per share.
pub open spec fn with_dividend(r: Org, per_share: Money) -> Org {
    Org { declared_dividend: Some(per_share), ..r }
}

/// Appoint (or clear) an org's manager.
fn appoint(world: &mut World, id: OrgId, m: Option<CitizenId>)
    requires
        old(world).wf(),
    ensures
        final(world).wf(),
        org_changed(*old(world), *final(world), id, |r: Org| with_manager(r, m)),
{
    if let Some(i) = index_of(&world.orgs, id.0) {
        let mut r = world.orgs.remove(i);
        r.manager = m;
        world.orgs.insert(i, r);
        proof {
            assert(world.orgs@ =~= old(world).orgs@.update(i as int, with_manager(old(world).orgs@[i as int], m)));
            lemma_update_keeps_ids(old(world).orgs@, i as int, world.orgs@[i as int]);
            lemma_org_row_lists(old(world).orgs@, i as int, world.orgs@[i as int]);
        }
    }
}

/// Record an org's declared dividend.
fn declare_dividend(world: &mut World, id: OrgId, per_share: Money)
    requires
        old(world).wf(),
    ensures
        final(world).wf(),
        org_changed(*old(world), *final(world), id, |r: Org| with_dividend(r, per_share)),
{
    if let Some(i) = index_of(&world.orgs, id.0) {
        let mut r = world.orgs.remove(i);
        r.declared_dividend = Some(per_share);
        world.orgs.insert(i, r);
        proof {
            assert(world.orgs@ =~= old(world).orgs@.update(i as int, with_dividend(old(world).orgs@[i as int], per_share)));
            lemma_update_keeps_ids(old(world).orgs@, i as int, world.orgs@[i as int]);
            lemma_org_row_lists(old(world).orgs@, i as int, world.orgs@[i as int]);
        }
    }
}

/// The org that owns a workplace.
fn workplace_org(world: &World, wp: WorkplaceId) -> (r: Option<OrgId>)
    ensures
        r == org_of_workplace(*world, wp),
{
    match index_of(&world.workplaces, wp.0) {
        Some(i) => Some(world.workplaces[i].org),
        None => None,
    }
}

/// Seeding, with `mid` the world once the stock is credited.
pub open spec fn seeded_via(o: World, mid: World, n: World, h: Holder, a: Asset) -> bool {
    &&& credited(o, mid, h, a)
    &&& n == World { ledger_meta: seeded_meta(mid.ledger_meta, a), ..mid }
}

/// Depreciation, with `mid` the world once the machines are gone.
pub open spec fn depreciated_via(o: World, mid: World, n: World, wp: WorkplaceId, qty: u32) -> bool {
    &&& debited(o, mid, Holder::Workplace(wp), Asset::Good(Good::Machines, qty))
    &&& n == World {
        ledger_meta: LedgerMeta { depreciated: counted(mid.ledger_meta.depreciated, Good::Machines, qty), ..mid.ledger_meta },
        ..mid
    }
}

/// Going dormant or returning, with `mid` the world once the citizen is marked.
pub open spec fn dormancy_via(
    o: World,
    mid: World,
    n: World,
    c: CitizenId,
    dormant: bool,
    from: ContractStatus,
    to: ContractStatus,
) -> bool {
    &&& citizen_changed(o, mid, c, |x: Citizen| with_dormant(x, dormant))
    &&& n == World { contracts: n.contracts, ..mid }
    &&& statuses_moved(mid.contracts@, n.contracts@, Party::Citizen(c), from, to)
}

/// The holder a party is.
pub open spec fn holder(p: Party) -> Holder {
    Holder::spec_from_party(p)
}

/// What applying `e` to `o` makes: `n`.
pub open spec fn applied(o: World, n: World, e: Event) -> bool {
    match e {
        Event::SocietyCreated { society_id, seed, preset } => n.created(society_id, seed, *preset),
        Event::EpochStarted { epoch } => n == World { meta: Meta { epoch, tick: 0, epoch_ended: None, ..o.meta }, ..o },
        Event::Seeded { holder, asset } => exists|mid: World| #[trigger] seeded_via(o, mid, n, holder, asset),
        Event::EpochEnded { reason, .. } => n == World { meta: Meta { epoch_ended: Some(reason), ..o.meta }, ..o },
        Event::CitizenJoined { citizen, handle, kind, endowment, dwelling } => joined(
            o,
            n,
            citizen,
            handle@,
            kind,
            endowment,
            dwelling,
        ),
        Event::CitizenSeen { citizen, tick, .. } => citizen_changed(o, n, citizen, |c: Citizen| with_seen(c, tick)),
        Event::CitizenDormant { citizen } => exists|mid: World|
            #[trigger] dormancy_via(o, mid, n, citizen, true, ContractStatus::Active, ContractStatus::Suspended),
        Event::CitizenReturned { citizen } => exists|mid: World|
            #[trigger] dormancy_via(o, mid, n, citizen, false, ContractStatus::Suspended, ContractStatus::Active),
        Event::HouseholderJoined { citizen, handle, endowment, dwelling } => joined(
            o,
            n,
            citizen,
            handle@,
            CitizenKind::Householder,
            endowment,
            dwelling,
        ),
        Event::Transferred { from, to, asset, .. } => moved(o, n, holder(from), holder(to), asset),
        Event::OrgFounded { org, kind, name, founder, ownership, manager, fee_burned } => founded(
            o,
            n,
            org,
            kind,
            name@,
            founder,
            ownership,
            manager,
            fee_burned,
        ),
        Event::WorkplaceAdded { workplace, org, kind, slot, materials_consumed } => workplace_added(
            o,
            n,
            workplace,
            org,
            kind,
            slot,
            materials_consumed,
        ),
        Event::ManagerAppointed { org, citizen } => org_changed(o, n, org, |r: Org| with_manager(r, citizen)),
        Event::DividendDeclared { org, per_share, .. } => org_changed(o, n, org, |r: Org| with_dividend(r, per_share)),
        Event::DividendPaid { org, citizen, amount } => moved(
            o,
            n,
            Holder::Org(org),
            Holder::Citizen(citizen),
            Asset::Money(amount),
        ),
        Event::MachinesInstalled { workplace, qty } => match org_of_workplace(o, workplace) {
            Some(org) => moved(o, n, Holder::Org(org), Holder::Workplace(workplace), Asset::Good(Good::Machines, qty)),
            None => n == o,
        },
        Event::MachinesUninstalled { workplace, qty } => match org_of_workplace(o, workplace) {
            Some(org) => moved(o, n, Holder::Workplace(workplace), Holder::Org(org), Asset::Good(Good::Machines, qty)),
            None => n == o,
        },
        Event::MachinesDepreciated { workplace, qty } => exists|mid: World|
            #[trigger] depreciated_via(o, mid, n, workplace, qty),
        Event::DwellingTransferred { dwelling, to } => {
            &&& n == World { dwellings: n.dwellings, ..o }
            &&& row_changed(o.dwellings@, n.dwellings@, dwelling.0, |x: Dwelling| with_owner(x, to))
        },
        Event::Paid { citizen, org, amount, .. } => moved(
            o,
            n,
            Holder::Org(org),
            Holder::Citizen(citizen),
            Asset::Money(amount),
        ),
        Event::Produced { workplace, output, units, inputs_consumed, .. } => production(
            o,
            n,
            workplace,
            output,
            units,
            inputs_consumed,
        ),
        Event::MemberLeft { org, citizen } => {
            &&& n == World { orgs: n.orgs, ..o }
            &&& row_related(o.orgs@, n.orgs@, org.0, |a: Org, b: Org| left(a, b, citizen))
        },
        Event::MemberAdmitted { org, citizen } => member_admitted(o, n, org, citizen),
        Event::Assigned { workplace, citizen, contract } => {
            &&& n == World { workplaces: n.workplaces, ..o }
            &&& row_related(
                o.workplaces@,
                n.workplaces@,
                workplace.0,
                |a: Workplace, b: Workplace| took_on(a, b, citizen, contract),
            )
        },
        Event::Unassigned { workplace, citizen } => exists|mid: World| #[trigger] unassigned_via(o, mid, n, workplace, citizen),
        Event::PaymentMissed { org, contract, .. } => payment_missed(o, n, org, contract),
        Event::EmploymentTerminated { contract, .. } => employment_ended(o, n, contract),
        Event::RentMissed { contract, .. } => contract_changed(o, n, contract, |k: Contract| rent_missed(k)),
        Event::CreditMissed { contract, .. } => contract_changed(o, n, contract, |k: Contract| credit_missed(k)),
        Event::CreditRepaid { contract } => exists|mid: World| #[trigger] repaid_via(o, mid, n, contract),
        Event::CreditDefaulted { contract, collateral_seized } => exists|m1: World, m2: World|
            #[trigger] defaulted_via(o, m1, m2, n, contract, collateral_seized),
        Event::LeaseEnded { contract, .. } => contract_changed(o, n, contract, |k: Contract| ended(k)),
        Event::WantedRemoved { offer } => {
            &&& n == World { offers: n.offers, ..o }
            &&& row_removed(o.offers@, n.offers@, offer.0)
        },
        Event::DwellingOccupied { dwelling, citizen } => exists|m1: World, m2: World|
            #[trigger] occupied_via(o, m1, m2, n, dwelling, citizen),
        Event::CycleClosed { low_population_cycles, .. } => {
            &&& n == World { meta: Meta { low_population_cycles, ..o.meta }, orgs: n.orgs, ..o }
            &&& n.orgs@.len() == o.orgs@.len()
            &&& forall|i: int| 0 <= i < o.orgs@.len() ==> #[trigger] n.orgs@[i] == no_dividend(o.orgs@[i])
        },
        Event::RentPaid { contract, amount } => exists|mid: World|
            #[trigger] paid_under_via(o, mid, n, contract, true, 0, amount),
        Event::CreditInstallment { contract, amount, remaining } => exists|mid: World|
            #[trigger] paid_under_via(o, mid, n, contract, false, remaining, amount),
        Event::DwellingBuilt { dwelling, org, materials_consumed, .. } => exists|mid: World|
            #[trigger] built_via(o, mid, n, dwelling, org, materials_consumed),
        Event::SharesIssued { org, qty } => {
            &&& n == World { orgs: n.orgs, ..o }
            &&& row_related(o.orgs@, n.orgs@, org.0, |a: Org, b: Org| issued(a, b, qty))
        },
        Event::WantedPosted { offer, by, good, qty, max_price } => posted(
            o,
            n,
            crate::world::Offer {
                id: offer,
                by,
                created_tick: o.meta.tick,
                body: crate::world::OfferBody::Wanted { good, qty, max_price },
            },
        ),
        Event::MembershipRequested { offer, org, citizen } => posted(
            o,
            n,
            crate::world::Offer {
                id: offer,
                by: Party::Citizen(citizen),
                created_tick: o.meta.tick,
                body: crate::world::OfferBody::Membership { org, citizen },
            },
        ),
        Event::EmploymentOffered { offer, body } => match body {
            crate::world::OfferBody::Employment { org, .. } => posted(
                o,
                n,
                crate::world::Offer { id: offer, by: Party::Org(org), created_tick: o.meta.tick, body },
            ),
            _ => n == o,
        },
        Event::EmploymentAccepted {
            contract,
            offer,
            org,
            workplace,
            citizen,
            pay,
            max_hours,
            term_cycles,
            notice_cycles,
        } => employment_accepted(
            o,
            n,
            job_contract(contract, org, workplace, citizen, pay, max_hours, term_cycles, notice_cycles, o.meta.tick),
            org,
            offer,
        ),
        Event::LeaseAccepted { contract, owner, tenant, asset, rent_per_cycle, term_cycles } => match asset {
            crate::world::LeaseAsset::Dwelling(d) => lease_accepted(
                o,
                n,
                lease_contract(contract, owner, tenant, asset, rent_per_cycle, term_cycles, o.meta.tick),
                d,
            ),
        },
        Event::ShareRuleSet { .. } => n == o,
        Event::LaborSet { citizen, allocations } => exists|mid: World|
            #[trigger] labor_set_via(o, mid, n, citizen, allocations@),
        Event::HardshipBegan { citizen, .. } => citizen_changed(
            o,
            n,
            citizen,
            |c: Citizen| with_flags(c, flags_set(c.flags, Some(true), None)),
        ),
        Event::HardshipEnded { citizen, .. } => citizen_changed(
            o,
            n,
            citizen,
            |c: Citizen| with_flags(c, flags_set(c.flags, Some(false), None)),
        ),
        Event::DestitutionBegan { citizen, .. } => citizen_changed(
            o,
            n,
            citizen,
            |c: Citizen| with_flags(c, flags_set(c.flags, None, Some(true))),
        ),
        Event::DestitutionEnded { citizen, .. } => citizen_changed(
            o,
            n,
            citizen,
            |c: Citizen| with_flags(c, flags_set(c.flags, None, Some(false))),
        ),
    }
}

/// The ledger's running totals after seeding `a` stay within range.
pub open spec fn seed_fits(m: LedgerMeta, a: Asset) -> bool {
    match a {
        Asset::Money(x) => fits_i64(m.minted.0 + x.0),
        Asset::Good(g, q) => m.seeded.spec_get(g) + q <= u64::MAX,
    }
}

/// Applying `e` to `w` keeps every counter within its range: what the
/// producers of events guarantee.
pub open spec fn admissible(w: World, e: Event) -> bool {
    match e {
        Event::SocietyCreated { preset, .. } => preset.params.time.ticks_per_cycle > 0 && crate::world::total_slots(
            preset.params.land,
        ) <= u32::MAX,
        Event::Seeded { holder, asset } => creditable(w, holder, asset) && seed_fits(w.ledger_meta, asset),
        Event::CitizenJoined { citizen, endowment, .. } => fits_i64(w.ledger_meta.minted.0 + endowment.0) && (
        w.next.citizen.0 <= citizen.0 ==> citizen.0 < u32::MAX),
        Event::HouseholderJoined { citizen, endowment, .. } => fits_i64(w.ledger_meta.minted.0 + endowment.0) && (
        w.next.citizen.0 <= citizen.0 ==> citizen.0 < u32::MAX),
        Event::Transferred { from, to, asset, .. } => movable(w, holder(from), holder(to), asset),
        Event::OrgFounded { org, founder, fee_burned, .. } => {
            &&& founder matches Some(f) ==> debitable(w, Holder::Citizen(f), Asset::Money(fee_burned))
            &&& fits_i64(w.ledger_meta.burned_money.0 + fee_burned.0)
            &&& w.next.org.0 <= org.0 ==> org.0 < u32::MAX
        },
        Event::WorkplaceAdded { workplace, materials_consumed, .. } => {
            &&& w.ledger_meta.consumed.spec_get(Good::Materials) + materials_consumed <= u64::MAX
            &&& w.next.workplace.0 <= workplace.0 ==> workplace.0 < u32::MAX
        },
        Event::DividendPaid { org, citizen, amount } => movable(
            w,
            Holder::Org(org),
            Holder::Citizen(citizen),
            Asset::Money(amount),
        ),
        Event::Paid { citizen, org, amount, .. } => movable(
            w,
            Holder::Org(org),
            Holder::Citizen(citizen),
            Asset::Money(amount),
        ),
        Event::MachinesInstalled { workplace, qty } => org_of_workplace(w, workplace) matches Some(org) ==> movable(
            w,
            Holder::Org(org),
            Holder::Workplace(workplace),
            Asset::Good(Good::Machines, qty),
        ),
        Event::MachinesUninstalled { workplace, qty } => org_of_workplace(w, workplace) matches Some(org) ==> movable(
            w,
            Holder::Workplace(workplace),
            Holder::Org(org),
            Asset::Good(Good::Machines, qty),
        ),
        Event::MachinesDepreciated { qty, .. } => w.ledger_meta.depreciated.spec_get(Good::Machines) + qty <= u64::MAX,
        Event::RentPaid { contract, amount } => payable_under(w, contract, amount),
        Event::CreditInstallment { contract, amount, .. } => payable_under(w, contract, amount),
        Event::DwellingBuilt { dwelling, materials_consumed, .. } => {
            &&& w.ledger_meta.consumed.spec_get(Good::Materials) + materials_consumed <= u64::MAX
            &&& w.ledger_meta.dwellings_built < u64::MAX
            &&& w.next.dwelling.0 <= dwelling.0 ==> dwelling.0 < u32::MAX
        },
        Event::SharesIssued { org, qty } => issuable(w, org, qty),
        Event::CreditRepaid { contract } => releasable(w, contract, None),
        Event::CreditDefaulted { contract, collateral_seized } => collateral_seized matches Some(
            crate::world::Collateral::Shares(org, _),
        ) ==> releasable(w, contract, Some(org)),
        Event::WantedPosted { offer, .. } => w.next.offer.0 <= offer.0 ==> offer.0 < u32::MAX,
        Event::MembershipRequested { offer, .. } => w.next.offer.0 <= offer.0 ==> offer.0 < u32::MAX,
        Event::EmploymentOffered { offer, .. } => w.next.offer.0 <= offer.0 ==> offer.0 < u32::MAX,
        Event::LeaseAccepted { contract, .. } => w.next.contract.0 <= contract.0 ==> contract.0 < u32::MAX,
        Event::EmploymentAccepted { contract, .. } => w.next.contract.0 <= contract.0 ==> contract.0 < u32::MAX,
        Event::RentMissed { contract, .. } => forall|i: int|
            0 <= i < w.contracts@.len() && (#[trigger] w.contracts@[i]).id == contract ==> match w.contracts@[i].body {
                crate::world::ContractBody::Lease { missed_cycles, .. } => missed_cycles < u32::MAX,
                _ => true,
            },
        Event::Produced { workplace, output, units, inputs_consumed, .. } => production_fits(
            w,
            workplace,
            output,
            units,
            inputs_consumed,
        ),
        _ => true,
    }
}

/// Fold one event into the world.
pub fn apply(world: &mut World, event: &Event)
    requires
        old(world).wf(),
        admissible(*old(world), *event),
    ensures
        final(world).wf(),
        applied(*old(world), *final(world), *event),
{
    match event {
        Event::SocietyCreated { society_id, seed, preset } => {
            *world = World::new(*society_id, *seed, preset);
        },
        Event::EpochStarted { epoch } => {
            world.meta.epoch = *epoch;
            world.meta.tick = 0;
            world.meta.epoch_ended = None;
        },
        Event::Seeded { holder, asset } => {
            credit(world, *holder, *asset);
            let ghost mid = *world;
            match asset {
                Asset::Money(m) => {
                    world.ledger_meta.minted = Money(world.ledger_meta.minted.0 + m.0);
                },
                Asset::Good(g, q) => {
                    LedgerMeta::add(&mut world.ledger_meta.seeded, *g, *q);
                },
            }
            assert(seeded_via(*old(world), mid, *world, *holder, *asset));
        },
        Event::EpochEnded { reason, .. } => {
            world.meta.epoch_ended = Some(*reason);
        },
        Event::CitizenJoined { citizen, handle, kind, endowment, dwelling } => {
            join(world, *citizen, handle, *kind, *endowment, *dwelling);
        },
        Event::CitizenSeen { citizen, tick, .. } => {
            set_seen(world, *citizen, *tick);
        },
        Event::CitizenDormant { citizen } => {
            set_dormant(world, *citizen, true);
            let ghost mid = *world;
            set_contract_status(world, *citizen, ContractStatus::Active, ContractStatus::Suspended);
            assert(dormancy_via(*old(world), mid, *world, *citizen, true, ContractStatus::Active, ContractStatus::Suspended));
        },
        Event::CitizenReturned { citizen } => {
            set_dormant(world, *citizen, false);
            let ghost mid = *world;
            set_contract_status(world, *citizen, ContractStatus::Suspended, ContractStatus::Active);
            assert(dormancy_via(*old(world), mid, *world, *citizen, false, ContractStatus::Suspended, ContractStatus::Active));
        },
        Event::HouseholderJoined { citizen, handle, endowment, dwelling } => {
            join(world, *citizen, handle, CitizenKind::Householder, *endowment, *dwelling);
        },
        Event::Transferred { from, to, asset, .. } => {
            move_asset(world, Holder::from_party(*from), Holder::from_party(*to), *asset);
        },
        Event::OrgFounded { org, kind, name, founder, ownership, manager, fee_burned } => {
            found_org(world, *org, *kind, name, *founder, ownership, *manager, *fee_burned);
        },
        Event::WorkplaceAdded { workplace, org, kind, slot, materials_consumed } => {
            add_workplace(world, *workplace, *org, *kind, *slot, *materials_consumed);
        },
        Event::ManagerAppointed { org, citizen } => {
            appoint(world, *org, *citizen);
        },
        Event::DividendDeclared { org, per_share, .. } => {
            declare_dividend(world, *org, *per_share);
        },
        Event::DividendPaid { org, citizen, amount } => {
            move_asset(world, Holder::Org(*org), Holder::Citizen(*citizen), Asset::Money(*amount));
        },
        Event::MachinesInstalled { workplace, qty } => {
            if let Some(org) = workplace_org(world, *workplace) {
                move_asset(world, Holder::Org(org), Holder::Workplace(*workplace), Asset::Good(Good::Machines, *qty));
            }
        },
        Event::MachinesUninstalled { workplace, qty } => {
            if let Some(org) = workplace_org(world, *workplace) {
                move_asset(world, Holder::Workplace(*workplace), Holder::Org(org), Asset::Good(Good::Machines, *qty));
            }
        },
        Event::MachinesDepreciated { workplace, qty } => {
            debit(world, Holder::Workplace(*workplace), Asset::Good(Good::Machines, *qty));
            let ghost mid = *world;
            LedgerMeta::add(&mut world.ledger_meta.depreciated, Good::Machines, *qty);
            assert(depreciated_via(*old(world), mid, *world, *workplace, *qty));
        },
        Event::DwellingTransferred { dwelling, to } => {
            transfer_dwelling(world, *dwelling, *to);
        },
        Event::Paid { citizen, org, amount, .. } => {
            move_asset(world, Holder::Org(*org), Holder::Citizen(*citizen), Asset::Money(*amount));
        },
        Event::Produced { workplace, output, units, inputs_consumed, .. } => {
            produce(world, *workplace, *output, *units, *inputs_consumed);
        },
        Event::MemberLeft { org, citizen } => {
            leave_org(world, *org, *citizen);
        },
        Event::MemberAdmitted { org, citizen } => {
            admit_member(world, *org, *citizen);
        },
        Event::Assigned { workplace, citizen, contract } => {
            assign(world, *workplace, *citizen, *contract);
        },
        Event::Unassigned { workplace, citizen } => {
            drop_worker(world, *workplace, *citizen);
            let ghost mid = *world;
            free_allocations(world, *citizen, *workplace);
            assert(unassigned_via(*old(world), mid, *world, *workplace, *citizen));
        },
        Event::PaymentMissed { org, contract, .. } => {
            drop_employee(world, *org, *contract, true);
            change_contract(world, *contract, 0);
        },
        Event::EmploymentTerminated { contract, .. } => {
            terminate(world, *contract);
        },
        Event::RentMissed { contract, .. } => {
            change_contract(world, *contract, 1);
        },
        Event::CreditMissed { contract, .. } => {
            change_contract(world, *contract, 2);
        },
        Event::CreditRepaid { contract } => {
            repay(world, *contract);
        },
        Event::CreditDefaulted { contract, collateral_seized } => {
            default_on(world, *contract, *collateral_seized);
        },
        Event::LeaseEnded { contract, .. } => {
            change_contract(world, *contract, 0);
        },
        Event::WantedRemoved { offer } => {
            remove_offer(world, *offer);
        },
        Event::DwellingOccupied { dwelling, citizen } => {
            occupy(world, *dwelling, *citizen);
        },
        Event::CycleClosed { low_population_cycles, .. } => {
            close_cycle(world, *low_population_cycles);
        },
        Event::RentPaid { contract, amount } => {
            pay_under(world, *contract, true, *amount, 0);
        },
        Event::CreditInstallment { contract, amount, remaining } => {
            pay_under(world, *contract, false, *amount, *remaining);
        },
        Event::DwellingBuilt { dwelling, org, materials_consumed, .. } => {
            build_dwelling(world, *dwelling, *org, *materials_consumed);
        },
        Event::SharesIssued { org, qty } => {
            issue(world, *org, *qty);
        },
        Event::WantedPosted { offer, by, good, qty, max_price } => {
            let x = crate::world::Offer {
                id: *offer,
                by: *by,
                created_tick: world.meta.tick,
                body: crate::world::OfferBody::Wanted { good: *good, qty: *qty, max_price: *max_price },
            };
            post_offer(world, x);
        },
        Event::MembershipRequested { offer, org, citizen } => {
            let x = crate::world::Offer {
                id: *offer,
                by: Party::Citizen(*citizen),
                created_tick: world.meta.tick,
                body: crate::world::OfferBody::Membership { org: *org, citizen: *citizen },
            };
            post_offer(world, x);
        },
        Event::LaborSet { citizen, allocations } => {
            set_labor(world, *citizen, allocations);
        },
        Event::ShareRuleSet { .. } => {},
        Event::LeaseAccepted { contract, owner, tenant, asset, rent_per_cycle, term_cycles } => {
            let x = Contract {
                id: *contract,
                parties: (*owner, *tenant),
                created_tick: world.meta.tick,
                term_cycles: *term_cycles,
                status: crate::world::ContractStatus::Active,
                body: crate::world::ContractBody::Lease { asset: *asset, rent_per_cycle: *rent_per_cycle, missed_cycles: 0 },
            };
            match asset {
                crate::world::LeaseAsset::Dwelling(d) => {
                    let_dwelling(world, x, *d);
                },
            }
        },
        Event::EmploymentAccepted {
            contract,
            offer,
            org,
            workplace,
            citizen,
            pay,
            max_hours,
            term_cycles,
            notice_cycles,
        } => {
            let x = Contract {
                id: *contract,
                parties: (Party::Org(*org), Party::Citizen(*citizen)),
                created_tick: world.meta.tick,
                term_cycles: *term_cycles,
                status: crate::world::ContractStatus::Active,
                body: crate::world::ContractBody::Employment {
                    org: *org,
                    workplace: *workplace,
                    pay: *pay,
                    max_hours: *max_hours,
                    notice_cycles: *notice_cycles,
                },
            };
            accept_job(world, x, *org, *offer);
        },
        Event::EmploymentOffered { offer, body } => {
            if let crate::world::OfferBody::Employment { org, .. } = body {
                let x = crate::world::Offer { id: *offer, by: Party::Org(*org), created_tick: world.meta.tick, body: *body };
                post_offer(world, x);
            }
        },
        Event::HardshipBegan { citizen, .. } => {
            set_citizen_flags(world, *citizen, Some(true), None);
        },
        Event::HardshipEnded { citizen, .. } => {
            set_citizen_flags(world, *citizen, Some(false), None);
        },
        Event::DestitutionBegan { citizen, .. } => {
            set_citizen_flags(world, *citizen, None, Some(true));
        },
        Event::DestitutionEnded { citizen, .. } => {
            set_citizen_flags(world, *citizen, None, Some(false));
        },
    }
}

/// A party's current holding of a good (none where the party does not exist).
pub open spec fn spec_goods_of(w: World, party: Party, good: Good) -> u32 {
    match party {
        Party::Citizen(id) => match find(w.citizens@, id.0) {
            Some(i) => w.citizens@[i].household.pantry.spec_get(good),
            None => 0,
        },
        Party::Org(id) => match find(w.orgs@, id.0) {
            Some(i) => w.orgs@[i].inventory.spec_get(good),
            None => 0,
        },
    }
}

/// A party's current holding of a good.
pub fn goods_of(world: &World, party: Party, good: Good) -> (q: u32)
    ensures
        q == spec_goods_of(*world, party, good),
{
    match party {
        Party::Citizen(id) => match index_of(&world.citizens, id.0) {
            Some(i) => world.citizens[i].household.pantry.get(good),
            None => 0,
        },
        Party::Org(id) => match index_of(&world.orgs, id.0) {
            Some(i) => world.orgs[i].inventory.get(good),
            None => 0,
        },
    }
}

/// A party's current money (none where the party does not exist).
pub open spec fn spec_money_of(w: World, party: Party) -> Money {
    match party {
        Party::Citizen(id) => match find(w.citizens@, id.0) {
            Some(i) => w.citizens@[i].household.balance,
            None => Money(0),
        },
        Party::Org(id) => match find(w.orgs@, id.0) {
            Some(i) => w.orgs@[i].treasury,
            None => Money(0),
        },
    }
}

/// A party's current money.
pub fn money_of(world: &World, party: Party) -> (m: Money)
    ensures
        m == spec_money_of(*world, party),
{
    match party {
        Party::Citizen(id) => match index_of(&world.citizens, id.0) {
            Some(i) => world.citizens[i].household.balance,
            None => Money(0),
        },
        Party::Org(id) => match index_of(&world.orgs, id.0) {
            Some(i) => world.orgs[i].treasury,
            None => Money(0),
        },
    }
}

/// The sequence without any entry keyed `x`, in order.
pub open spec fn without<T: Keyed>(s: Seq<T>, x: u32) -> Seq<T>
    decreases s.len(),
{
    if s.len() == 0 {
        s
    } else if s.last().key_of() == x {
        without(s.drop_last(), x)
    } else {
        without(s.drop_last(), x).push(s.last())
    }
}

/// A list without the entries keyed `x`.
fn drop_all<T: Keyed + Copy>(v: &Vec<T>, x: u32) -> (r: Vec<T>)
    ensures
        r@ == without(v@, x),
{
    let mut r: Vec<T> = Vec::new();
    let mut k: usize = 0;
    while k < v.len()
        invariant
            k <= v@.len(),
            r@ == without(v@.take(k as int), x),
        decreases v@.len() - k,
    {
        proof {
            assert(v@.take(k + 1).drop_last() =~= v@.take(k as int));
        }
        if v[k].key() != x {
            r.push(v[k]);
        }
        k = k + 1;
    }
    proof {
        assert(v@.take(v@.len() as int) =~= v@);
    }
    r
}

/// `n` is `o` with the row of id `id` related to its old self by `rel`, every
/// other row as it was (or all as they were where there is no such row).
pub open spec fn row_related<T: Keyed>(o: Seq<T>, n: Seq<T>, id: u32, rel: spec_fn(T, T) -> bool) -> bool {
    match find(o, id) {
        Some(i) => {
            &&& n.len() == o.len()
            &&& forall|k: int| 0 <= k < o.len() && k != i ==> n[k] == o[k]
            &&& rel(o[i], n[i])
        },
        None => n == o,
    }
}

/// `n` is `o` with the row of id `id` removed, if there is one.
pub open spec fn row_removed<T: Keyed>(o: Seq<T>, n: Seq<T>, id: u32) -> bool {
    match find(o, id) {
        Some(i) => n == o.remove(i),
        None => n == o,
    }
}

/// `n` is `o` with only its contracts changed, by `f` on the row of `id`.
pub open spec fn contract_changed(o: World, n: World, id: crate::ids::ContractId, f: spec_fn(Contract) -> Contract) -> bool {
    &&& n == World { contracts: n.contracts, ..o }
    &&& row_changed(o.contracts@, n.contracts@, id.0, f)
}

/// A contract that is over.
pub open spec fn ended(k: Contract) -> Contract {
    Contract { status: ContractStatus::Ended, ..k }
}

/// A lease with one more missed rent (other contracts as they are).
pub open spec fn rent_missed(k: Contract) -> Contract {
    match k.body {
        crate::world::ContractBody::Lease { asset, rent_per_cycle, missed_cycles } => Contract {
            body: crate::world::ContractBody::Lease { asset, rent_per_cycle, missed_cycles: (missed_cycles + 1) as u32 },
            ..k
        },
        _ => k,
    }
}

/// A loan with a missed installment (other contracts as they are).
pub open spec fn credit_missed(k: Contract) -> Contract {
    match k.body {
        crate::world::ContractBody::Credit { principal, rate_per_cycle_bp, installment, installments_left, collateral, .. } => Contract {
            body: crate::world::ContractBody::Credit {
                principal,
                rate_per_cycle_bp,
                installment,
                installments_left,
                collateral,
                missed: true,
            },
            ..k
        },
        _ => k,
    }
}

/// Replace the contract of id `id` by `f` of it, for a plain change.
fn change_contract(world: &mut World, id: crate::ids::ContractId, which: u8)
    requires
        old(world).wf(),
        which <= 2,
        which == 1 ==> forall|i: int|
            0 <= i < old(world).contracts@.len() && (#[trigger] old(world).contracts@[i]).id == id ==> match old(
                world,
            ).contracts@[i].body {
                crate::world::ContractBody::Lease { missed_cycles, .. } => missed_cycles < u32::MAX,
                _ => true,
            },
    ensures
        final(world).wf(),
        contract_changed(
            *old(world),
            *final(world),
            id,
            |k: Contract|
                if which == 0 {
                    ended(k)
                } else if which == 1 {
                    rent_missed(k)
                } else {
                    credit_missed(k)
                },
        ),
{
    if let Some(i) = index_of(&world.contracts, id.0) {
        proof {
            lemma_find(world.contracts@, id.0);
        }
        let k = world.contracts[i];
        let nk = if which == 0 {
            Contract { status: ContractStatus::Ended, ..k }
        } else if which == 1 {
            match k.body {
                crate::world::ContractBody::Lease { asset, rent_per_cycle, missed_cycles } => Contract {
                    body: crate::world::ContractBody::Lease { asset, rent_per_cycle, missed_cycles: missed_cycles + 1 },
                    ..k
                },
                _ => k,
            }
        } else {
            match k.body {
                crate::world::ContractBody::Credit {
                    principal,
                    rate_per_cycle_bp,
                    installment,
                    installments_left,
                    collateral,
                    ..
                } => Contract {
                    body: crate::world::ContractBody::Credit {
                        principal,
                        rate_per_cycle_bp,
                        installment,
                        installments_left,
                        collateral,
                        missed: true,
                    },
                    ..k
                },
                _ => k,
            }
        };
        world.contracts.set(i, nk);
        proof {
            lemma_update_keeps_ids(old(world).contracts@, i as int, nk);
        }
    }
}

/// An org with `c` no longer a member.
pub open spec fn left(a: Org, b: Org, c: CitizenId) -> bool {
    b == Org { members: b.members, ..a } && b.members@ == without(a.members@, c.0)
}

/// An org with one contract no longer among its employees.
pub open spec fn employee_dropped(a: Org, b: Org, k: crate::ids::ContractId) -> bool {
    b == Org { employees: b.employees, ..a } && b.employees@ == without(a.employees@, k.0)
}

/// An org that missed a payment, the contract no longer among its employees.
pub open spec fn missed_payment(a: Org, b: Org, k: crate::ids::ContractId) -> bool {
    b == Org { employees: b.employees, payment_missed: true, ..a } && b.employees@ == without(a.employees@, k.0)
}

/// Take a member off an org.
fn leave_org(world: &mut World, org: OrgId, c: CitizenId)
    requires
        old(world).wf(),
    ensures
        final(world).wf(),
        *final(world) == (World { orgs: final(world).orgs, ..*old(world) }),
        row_related(old(world).orgs@, final(world).orgs@, org.0, |a: Org, b: Org| left(a, b, c)),
{
    if let Some(i) = index_of(&world.orgs, org.0) {
        let mut r = world.orgs.remove(i);
        proof {
            assert(crate::world::org_lists_ok(old(world).orgs@[i as int]));
            lemma_without_increasing(r.members@, c.0);
        }
        r.members = drop_all(&r.members, c.0);
        world.orgs.insert(i, r);
        proof {
            assert(world.orgs@ =~= old(world).orgs@.update(i as int, world.orgs@[i as int]));
            lemma_update_keeps_ids(old(world).orgs@, i as int, world.orgs@[i as int]);
            lemma_org_row_lists(old(world).orgs@, i as int, world.orgs@[i as int]);
        }
    }
}

/// Take a contract off an org's employees, marking a missed payment where asked.
fn drop_employee(world: &mut World, org: OrgId, k: crate::ids::ContractId, missed: bool)
    requires
        old(world).wf(),
    ensures
        final(world).wf(),
        *final(world) == (World { orgs: final(world).orgs, ..*old(world) }),
        row_related(
            old(world).orgs@,
            final(world).orgs@,
            org.0,
            |a: Org, b: Org|
                if missed {
                    missed_payment(a, b, k)
                } else {
                    employee_dropped(a, b, k)
                },
        ),
{
    if let Some(i) = index_of(&world.orgs, org.0) {
        let mut r = world.orgs.remove(i);
        proof {
            assert(crate::world::org_lists_ok(old(world).orgs@[i as int]));
            lemma_without_increasing(r.employees@, k.0);
        }
        r.employees = drop_all(&r.employees, k.0);
        if missed {
            r.payment_missed = true;
        }
        world.orgs.insert(i, r);
        proof {
            assert(world.orgs@ =~= old(world).orgs@.update(i as int, world.orgs@[i as int]));
            lemma_update_keeps_ids(old(world).orgs@, i as int, world.orgs@[i as int]);
            lemma_org_row_lists(old(world).orgs@, i as int, world.orgs@[i as int]);
        }
    }
}

/// What ending an employment does: the contract ends and leaves its
/// employer's employees.
pub open spec fn employment_ended(o: World, n: World, k: crate::ids::ContractId) -> bool {
    match find(o.contracts@, k.0) {
        None => n == o,
        Some(i) => {
            &&& n == World { orgs: n.orgs, contracts: n.contracts, ..o }
            &&& n.contracts@ == o.contracts@.update(i, ended(o.contracts@[i]))
            &&& match o.contracts@[i].parties.0 {
                Party::Org(org) => row_related(o.orgs@, n.orgs@, org.0, |a: Org, b: Org| employee_dropped(a, b, k)),
                Party::Citizen(_) => n.orgs == o.orgs,
            }
        },
    }
}

/// End an employment contract.
fn terminate(world: &mut World, k: crate::ids::ContractId)
    requires
        old(world).wf(),
    ensures
        final(world).wf(),
        employment_ended(*old(world), *final(world), k),
{
    if let Some(i) = index_of(&world.contracts, k.0) {
        proof {
            lemma_find(world.contracts@, k.0);
        }
        let c = world.contracts[i];
        world.contracts.set(i, Contract { status: ContractStatus::Ended, ..c });
        proof {
            lemma_update_keeps_ids(old(world).contracts@, i as int, world.contracts@[i as int]);
        }
        if let Party::Org(org) = c.parties.0 {
            drop_employee(world, org, k, false);
        }
    }
}

/// What a missed payment does: the org is marked, the contract leaves its
/// employees and ends.
pub open spec fn payment_missed(o: World, n: World, org: OrgId, k: crate::ids::ContractId) -> bool {
    &&& n == World { orgs: n.orgs, contracts: n.contracts, ..o }
    &&& row_related(o.orgs@, n.orgs@, org.0, |a: Org, b: Org| missed_payment(a, b, k))
    &&& row_changed(o.contracts@, n.contracts@, k.0, |x: Contract| ended(x))
}

/// A citizen living in `home`.
pub open spec fn with_home(c: Citizen, home: Option<DwellingId>) -> Citizen {
    Citizen { household: Household { dwelling: home, ..c.household }, ..c }
}

/// Set where a citizen lives.
fn set_home(world: &mut World, id: CitizenId, home: Option<DwellingId>)
    requires
        old(world).wf(),
    ensures
        final(world).wf(),
        citizen_changed(*old(world), *final(world), id, |c: Citizen| with_home(c, home)),
{
    if let Some(i) = index_of(&world.citizens, id.0) {
        let mut c = world.citizens.remove(i);
        c.household.dwelling = home;
        world.citizens.insert(i, c);
        proof {
            assert(world.citizens@ =~= old(world).citizens@.update(i as int, with_home(old(world).citizens@[i as int], home)));
            lemma_update_keeps_ids(old(world).citizens@, i as int, world.citizens@[i as int]);
        }
    }
}

/// A dwelling occupied by `c` (and, vacated, no longer leased).
pub open spec fn occupied_by(d: Dwelling, c: Option<CitizenId>) -> Dwelling {
    Dwelling {
        occupant: c,
        lease: if c is None {
            None
        } else {
            d.lease
        },
        ..d
    }
}

/// The occupant of a dwelling, if it exists and has one.
pub open spec fn occupant_of(w: World, d: DwellingId) -> Option<CitizenId> {
    match find(w.dwellings@, d.0) {
        Some(i) => w.dwellings@[i].occupant,
        None => None,
    }
}

/// Occupying, with `m1` the world once the previous occupant has left and
/// `m2` once the dwelling records its new occupant.
pub open spec fn occupied_via(o: World, m1: World, m2: World, n: World, d: DwellingId, c: Option<CitizenId>) -> bool {
    &&& match occupant_of(o, d) {
        Some(p) => citizen_changed(o, m1, p, |x: Citizen| with_home(x, None)),
        None => m1 == o,
    }
    &&& m2 == World { dwellings: m2.dwellings, ..m1 }
    &&& row_changed(m1.dwellings@, m2.dwellings@, d.0, |x: Dwelling| occupied_by(x, c))
    &&& match c {
        Some(cc) => citizen_changed(m2, n, cc, |x: Citizen| with_home(x, Some(d))),
        None => n == m2,
    }
}

/// Move a citizen into a dwelling (or vacate it).
fn occupy(world: &mut World, d: DwellingId, c: Option<CitizenId>)
    requires
        old(world).wf(),
    ensures
        final(world).wf(),
        exists|m1: World, m2: World| #[trigger] occupied_via(*old(world), m1, m2, *final(world), d, c),
{
    let previous = match index_of(&world.dwellings, d.0) {
        Some(i) => world.dwellings[i].occupant,
        None => None,
    };
    if let Some(p) = previous {
        set_home(world, p, None);
    }
    let ghost m1 = *world;
    if let Some(i) = index_of(&world.dwellings, d.0) {
        let x = world.dwellings[i];
        let lease = if c.is_none() { None } else { x.lease };
        world.dwellings.set(i, Dwelling { occupant: c, lease, ..x });
        proof {
            lemma_find(m1.dwellings@, d.0);
            lemma_update_keeps_ids(m1.dwellings@, i as int, world.dwellings@[i as int]);
        }
    }
    let ghost m2 = *world;
    if let Some(cc) = c {
        set_home(world, cc, Some(d));
    }
    assert(occupied_via(*old(world), m1, m2, *world, d, c));
}

/// Remove an offer from the notice board.
fn remove_offer(world: &mut World, id: crate::ids::OfferId)
    requires
        old(world).wf(),
    ensures
        final(world).wf(),
        *final(world) == (World { offers: final(world).offers, ..*old(world) }),
        row_removed(old(world).offers@, final(world).offers@, id.0),
{
    if let Some(i) = index_of(&world.offers, id.0) {
        world.offers.remove(i);
        proof {
            let s = old(world).offers@;
            assert forall|a: int, b: int| 0 <= a < b < world.offers@.len() implies world.offers@[a].key_of()
                < world.offers@[b].key_of() by {
                let a2 = if a < i { a } else { a + 1 };
                let b2 = if b < i { b } else { b + 1 };
                assert(world.offers@[a] == s[a2]);
                assert(world.offers@[b] == s[b2]);
            }
        }
    }
}

/// An org with no declared dividend.
pub open spec fn no_dividend(r: Org) -> Org {
    Org { declared_dividend: None, ..r }
}

/// Close a cycle: record the collapse counter and clear declared dividends.
fn close_cycle(world: &mut World, low: u32)
    requires
        old(world).wf(),
    ensures
        final(world).wf(),
        *final(world) == (World {
            meta: Meta { low_population_cycles: low, ..old(world).meta },
            orgs: final(world).orgs,
            ..*old(world)
        }),
        final(world).orgs@.len() == old(world).orgs@.len(),
        forall|i: int| 0 <= i < old(world).orgs@.len() ==> #[trigger] final(world).orgs@[i] == no_dividend(old(world).orgs@[i]),
{
    world.meta.low_population_cycles = low;
    let ghost start = *world;
    let mut i: usize = 0;
    while i < world.orgs.len()
        invariant
            i <= world.orgs@.len() == start.orgs@.len(),
            *world == (World { orgs: world.orgs, ..start }),
            forall|k: int| 0 <= k < i ==> #[trigger] world.orgs@[k] == no_dividend(start.orgs@[k]),
            forall|k: int| i <= k < world.orgs@.len() ==> #[trigger] world.orgs@[k] == start.orgs@[k],
        decreases world.orgs@.len() - i,
    {
        let mut r = world.orgs.remove(i);
        r.declared_dividend = None;
        world.orgs.insert(i, r);
        proof {
            assert forall|k: int| 0 <= k < i + 1 implies #[trigger] world.orgs@[k] == no_dividend(start.orgs@[k]) by {}
        }
        i = i + 1;
    }
    proof {
        assert forall|a: int, b: int| 0 <= a < b < world.orgs@.len() implies world.orgs@[a].key_of() < world.orgs@[b].key_of() by {
            assert(start.orgs@[a].key_of() < start.orgs@[b].key_of());
        }
        assert forall|k: int| 0 <= k < world.orgs@.len() implies #[trigger] crate::world::org_lists_ok(world.orgs@[k]) by {
            assert(crate::world::org_lists_ok(start.orgs@[k]));
        }
    }
}

/// A lease with its missed rents cleared (other contracts as they are).
pub open spec fn rent_cleared(k: Contract) -> Contract {
    match k.body {
        crate::world::ContractBody::Lease { asset, rent_per_cycle, .. } => Contract {
            body: crate::world::ContractBody::Lease { asset, rent_per_cycle, missed_cycles: 0 },
            ..k
        },
        _ => k,
    }
}

/// A loan with `remaining` installments left and none missed (other contracts as they are).
pub open spec fn installment_taken(k: Contract, remaining: u32) -> Contract {
    match k.body {
        crate::world::ContractBody::Credit { principal, rate_per_cycle_bp, installment, collateral, .. } => Contract {
            body: crate::world::ContractBody::Credit {
                principal,
                rate_per_cycle_bp,
                installment,
                installments_left: remaining,
                collateral,
                missed: false,
            },
            ..k
        },
        _ => k,
    }
}

/// What a payment does to its contract: rent clears missed rents, an
/// installment sets the installments left.
pub open spec fn settled(k: Contract, rent: bool, remaining: u32) -> Contract {
    if rent {
        rent_cleared(k)
    } else {
        installment_taken(k, remaining)
    }
}

/// A contract's payment: the second party pays the first.
pub open spec fn paid_under_via(
    o: World,
    mid: World,
    n: World,
    id: crate::ids::ContractId,
    rent: bool,
    remaining: u32,
    amount: Money,
) -> bool {
    match find(o.contracts@, id.0) {
        None => n == o,
        Some(i) => {
            &&& mid == World { contracts: mid.contracts, ..o }
            &&& mid.contracts@ == o.contracts@.update(i, settled(o.contracts@[i], rent, remaining))
            &&& moved(
                mid,
                n,
                holder(o.contracts@[i].parties.1),
                holder(o.contracts@[i].parties.0),
                Asset::Money(amount),
            )
        },
    }
}

/// Whether a contract's payment stays within the counters' range.
pub open spec fn payable_under(w: World, id: crate::ids::ContractId, amount: Money) -> bool {
    match find(w.contracts@, id.0) {
        None => true,
        Some(i) => movable(w, holder(w.contracts@[i].parties.1), holder(w.contracts@[i].parties.0), Asset::Money(amount)),
    }
}

/// Pay under a contract: rent (clearing missed rents) or a loan installment.
fn pay_under(world: &mut World, id: crate::ids::ContractId, rent: bool, amount: Money, remaining: u32)
    requires
        old(world).wf(),
        payable_under(*old(world), id, amount),
    ensures
        final(world).wf(),
        exists|mid: World| #[trigger] paid_under_via(*old(world), mid, *final(world), id, rent, remaining, amount),
{
    if let Some(i) = index_of(&world.contracts, id.0) {
        proof {
            lemma_find(world.contracts@, id.0);
        }
        let k = world.contracts[i];
        let nk = if rent {
            match k.body {
                crate::world::ContractBody::Lease { asset, rent_per_cycle, .. } => Contract {
                    body: crate::world::ContractBody::Lease { asset, rent_per_cycle, missed_cycles: 0 },
                    ..k
                },
                _ => k,
            }
        } else {
            match k.body {
                crate::world::ContractBody::Credit { principal, rate_per_cycle_bp, installment, collateral, .. } => Contract {
                    body: crate::world::ContractBody::Credit {
                        principal,
                        rate_per_cycle_bp,
                        installment,
                        installments_left: remaining,
                        collateral,
                        missed: false,
                    },
                    ..k
                },
                _ => k,
            }
        };
        world.contracts.set(i, nk);
        proof {
            lemma_update_keeps_ids(old(world).contracts@, i as int, nk);
        }
        let ghost mid = *world;
        move_asset(world, Holder::from_party(k.parties.1), Holder::from_party(k.parties.0), Asset::Money(amount));
        assert(paid_under_via(*old(world), mid, *world, id, rent, remaining, amount));
    } else {
        assert(paid_under_via(*old(world), *world, *world, id, rent, remaining, amount));
    }
}

/// `x` is the dwelling that building makes in `w`.
pub open spec fn is_built_dwelling(x: Dwelling, id: DwellingId, org: OrgId, w: World) -> bool {
    x == (Dwelling { id, owner: Owner::Org(org), occupant: None, lease: None, built_tick: w.meta.tick })
}

/// Building a dwelling, with `mid` the world once the org's materials are consumed.
pub open spec fn built_via(o: World, mid: World, n: World, id: DwellingId, org: OrgId, materials: u32) -> bool {
    &&& debited(o, mid, Holder::Org(org), Asset::Good(Good::Materials, materials))
    &&& n == World {
        dwellings: n.dwellings,
        ledger_meta: LedgerMeta {
            consumed: counted(mid.ledger_meta.consumed, Good::Materials, materials),
            dwellings_built: (mid.ledger_meta.dwellings_built + 1) as u64,
            ..mid.ledger_meta
        },
        next: crate::world::NextIds { dwelling: DwellingId(bumped(mid.next.dwelling.0, id.0)), ..mid.next },
        ..mid
    }
    &&& exists|x: Dwelling| is_built_dwelling(x, id, org, mid) && upserted(mid.dwellings@, n.dwellings@, x)
}

/// Build a dwelling for an org.
fn build_dwelling(world: &mut World, id: DwellingId, org: OrgId, materials: u32)
    requires
        old(world).wf(),
        old(world).ledger_meta.consumed.spec_get(Good::Materials) + materials <= u64::MAX,
        old(world).ledger_meta.dwellings_built < u64::MAX,
        old(world).next.dwelling.0 <= id.0 ==> id.0 < u32::MAX,
    ensures
        final(world).wf(),
        exists|mid: World| #[trigger] built_via(*old(world), mid, *final(world), id, org, materials),
{
    debit(world, Holder::Org(org), Asset::Good(Good::Materials, materials));
    let ghost mid = *world;
    LedgerMeta::add(&mut world.ledger_meta.consumed, Good::Materials, materials);
    world.ledger_meta.dwellings_built = world.ledger_meta.dwellings_built + 1;
    let x = Dwelling { id, owner: Owner::Org(org), occupant: None, lease: None, built_tick: world.meta.tick };
    let ghost before = world.dwellings@;
    upsert(&mut world.dwellings, x);
    assert(upserted(before, world.dwellings@, x));
    if world.next.dwelling.0 <= id.0 {
        world.next.dwelling = id.next();
    }
    assert(is_built_dwelling(x, id, org, mid));
    assert(world.ledger_meta == (LedgerMeta {
        consumed: counted(mid.ledger_meta.consumed, Good::Materials, materials),
        dwellings_built: (mid.ledger_meta.dwellings_built + 1) as u64,
        ..mid.ledger_meta
    }));
    assert(built_via(*old(world), mid, *world, id, org, materials));
}

/// A registry with `q` more shares on the org's own line.
pub open spec fn self_credited(h: Seq<ShareHolding>, q: u64) -> Seq<ShareHolding> {
    credited_line(h, crate::world::ShareHolder::OrgSelf, q)
}

/// A registry with `q` more shares on `holder`'s line (a new line at the
/// end where it has none).
pub open spec fn credited_line(h: Seq<ShareHolding>, holder: crate::world::ShareHolder, q: u64) -> Seq<ShareHolding> {
    match first(h, crate::shares::line_of(holder)) {
        Some(k) => h.update(k, ShareHolding { holder, qty: (h[k].qty + q) as u64 }),
        None => h.push(ShareHolding { holder, qty: q }),
    }
}

/// An org whose registry issued `q` more shares to itself (other orgs as they are).
pub open spec fn issued(a: Org, b: Org, q: u64) -> bool {
    match a.ownership {
        Ownership::Shares { issued, holdings } => {
            &&& b == Org { ownership: b.ownership, ..a }
            &&& b.ownership matches Ownership::Shares { issued: i2, holdings: h2 } && i2 == issued + q
                && h2@ == self_credited(holdings@, q)
        },
        _ => b == a,
    }
}

/// Whether issuing shares stays within the counters' range.
pub open spec fn issuable(w: World, org: OrgId, q: u64) -> bool {
    forall|i: int|
        0 <= i < w.orgs@.len() && (#[trigger] w.orgs@[i]).id == org ==> match w.orgs@[i].ownership {
            Ownership::Shares { issued, holdings } => {
                &&& issued + q <= u64::MAX
                &&& forall|k: int| 0 <= k < holdings@.len() ==> (#[trigger] holdings@[k]).qty + q <= u64::MAX
            },
            _ => true,
        }
}

/// The registry with `q` more shares on the org's own line.
fn credit_self(h: &Vec<ShareHolding>, q: u64) -> (r: Vec<ShareHolding>)
    requires
        forall|k: int| 0 <= k < h@.len() ==> (#[trigger] h@[k]).qty + q <= u64::MAX,
    ensures
        r@ == self_credited(h@, q),
{
    credit_line(h, crate::world::ShareHolder::OrgSelf, q)
}

/// The registry with `q` more shares on `holder`'s line.
fn credit_line(h: &Vec<ShareHolding>, holder: crate::world::ShareHolder, q: u64) -> (r: Vec<ShareHolding>)
    requires
        forall|k: int| 0 <= k < h@.len() ==> (#[trigger] h@[k]).qty + q <= u64::MAX,
    ensures
        r@ == credited_line(h@, holder, q),
{
    let mut r = crate::world::copy_list(h);
    let mut k: usize = 0;
    while k < r.len()
        invariant
            k <= r@.len(),
            r@ == h@,
            forall|j: int| 0 <= j < k ==> !(crate::shares::line_of(holder))(#[trigger] r@[j]),
            forall|j: int| 0 <= j < h@.len() ==> (#[trigger] h@[j]).qty + q <= u64::MAX,
        decreases r@.len() - k,
    {
        if r[k].holder == holder {
            proof {
                assert((crate::shares::line_of(holder))(r@[k as int]));
                crate::table::lemma_first(h@, crate::shares::line_of(holder));
                let j = first(h@, crate::shares::line_of(holder))->0;
                if j < k {
                    assert(!(crate::shares::line_of(holder))(r@[j]));
                }
            }
            let line = r[k];
            r.set(k, ShareHolding { holder, qty: line.qty + q });
            return r;
        }
        k = k + 1;
    }
    proof {
        crate::table::lemma_first(h@, crate::shares::line_of(holder));
    }
    r.push(ShareHolding { holder, qty: q });
    r
}

/// Issue shares into an org's own holdings.
fn issue(world: &mut World, org: OrgId, q: u64)
    requires
        old(world).wf(),
        issuable(*old(world), org, q),
    ensures
        final(world).wf(),
        *final(world) == (World { orgs: final(world).orgs, ..*old(world) }),
        row_related(old(world).orgs@, final(world).orgs@, org.0, |a: Org, b: Org| issued(a, b, q)),
{
    if let Some(i) = index_of(&world.orgs, org.0) {
        proof {
            lemma_find(world.orgs@, org.0);
        }
        let mut r = world.orgs.remove(i);
        let nown = match &r.ownership {
            Ownership::Shares { issued, holdings } => Some(Ownership::Shares { issued: *issued + q, holdings: credit_self(holdings, q) }),
            _ => None,
        };
        if let Some(x) = nown {
            r.ownership = x;
        }
        world.orgs.insert(i, r);
        proof {
            assert(world.orgs@ =~= old(world).orgs@.update(i as int, world.orgs@[i as int]));
            lemma_update_keeps_ids(old(world).orgs@, i as int, world.orgs@[i as int]);
            lemma_org_row_lists(old(world).orgs@, i as int, world.orgs@[i as int]);
        }
    }
}

/// Posting an offer: it is put on the board and the next offer id moves past it.
pub open spec fn posted(o: World, n: World, x: crate::world::Offer) -> bool {
    &&& n == World {
        offers: n.offers,
        next: crate::world::NextIds { offer: crate::ids::OfferId(bumped(o.next.offer.0, x.id.0)), ..o.next },
        ..o
    }
    &&& upserted(o.offers@, n.offers@, x)
}

/// Put an offer on the notice board.
fn post_offer(world: &mut World, x: crate::world::Offer)
    requires
        old(world).wf(),
        old(world).next.offer.0 <= x.id.0 ==> x.id.0 < u32::MAX,
    ensures
        final(world).wf(),
        posted(*old(world), *final(world), x),
{
    let ghost before = world.offers@;
    upsert(&mut world.offers, x);
    assert(upserted(before, world.offers@, x));
    if world.next.offer.0 <= x.id.0 {
        world.next.offer = x.id.next();
    }
}

/// Whether a share escrow entry is held for contract `id`.
pub open spec fn held_for(id: crate::ids::ContractId) -> spec_fn(crate::world::SharesEscrowed) -> bool {
    |e: crate::world::SharesEscrowed| e.key == crate::world::EscrowKey::Contract(id)
}

/// An org whose registry took `q` more shares on `holder`'s line, its count
/// of shares issued as it was (other orgs as they are).
pub open spec fn took_shares(a: Org, b: Org, holder: crate::world::ShareHolder, q: u64) -> bool {
    match a.ownership {
        Ownership::Shares { issued, holdings } => {
            &&& b == Org { ownership: b.ownership, ..a }
            &&& b.ownership matches Ownership::Shares { issued: i2, holdings: h2 } && i2 == issued && h2@
                == credited_line(holdings@, holder, q)
        },
        _ => b == a,
    }
}

/// The shares escrowed for contract `id` leave escrow and go to `party`'s
/// line in the registry of `org` (the escrowed shares' own org where `org`
/// is none); they leave escrow even where `party` cannot hold them there.
pub open spec fn escrow_released(
    o: World,
    n: World,
    id: crate::ids::ContractId,
    party: Party,
    org: Option<OrgId>,
) -> bool {
    match first(o.share_escrow@, held_for(id)) {
        None => n == o,
        Some(e) => {
            let entry = o.share_escrow@[e];
            let target = match org {
                Some(g) => g,
                None => entry.org,
            };
            &&& n == World { share_escrow: n.share_escrow, orgs: n.orgs, ..o }
            &&& n.share_escrow@ == o.share_escrow@.remove(e)
            &&& match crate::shares::spec_holder_of(party, target) {
                Some(h) => row_related(o.orgs@, n.orgs@, target.0, |a: Org, b: Org| took_shares(a, b, h, entry.qty)),
                None => n.orgs == o.orgs,
            }
        },
    }
}

/// Whether releasing the shares escrowed for contract `id` to `party` in
/// `org` stays within the registry's counters.
pub open spec fn releasable(w: World, id: crate::ids::ContractId, org: Option<OrgId>) -> bool {
    match first(w.share_escrow@, held_for(id)) {
        None => true,
        Some(e) => {
            let entry = w.share_escrow@[e];
            let target = match org {
                Some(g) => g,
                None => entry.org,
            };
            forall|i: int|
                0 <= i < w.orgs@.len() && (#[trigger] w.orgs@[i]).id == target ==> match w.orgs@[i].ownership {
                    Ownership::Shares { holdings, .. } => forall|k: int|
                        0 <= k < holdings@.len() ==> (#[trigger] holdings@[k]).qty + entry.qty <= u64::MAX,
                    _ => true,
                }
        },
    }
}

/// A repaid loan, with `mid` the world once the contract has ended: the
/// shares pledged on it go back to the borrower.
pub open spec fn repaid_via(o: World, mid: World, n: World, id: crate::ids::ContractId) -> bool {
    match find(o.contracts@, id.0) {
        None => n == o,
        Some(i) => {
            &&& mid == World { contracts: mid.contracts, ..o }
            &&& mid.contracts@ == o.contracts@.update(i, ended(o.contracts@[i]))
            &&& escrow_released(mid, n, id, o.contracts@[i].parties.1, None)
        },
    }
}

/// A citizen marked as having defaulted.
pub open spec fn with_default(c: Citizen) -> Citizen {
    Citizen { flags: crate::world::CitizenFlags { defaulted: true, ..c.flags }, ..c }
}

/// A defaulted loan, with `m1` the world once the contract has ended and
/// `m2` once the collateral is seized: a pledged dwelling goes to the
/// lender, pledged shares go from escrow to the lender's line, and a
/// borrowing citizen is marked as having defaulted.
pub open spec fn defaulted_via(
    o: World,
    m1: World,
    m2: World,
    n: World,
    id: crate::ids::ContractId,
    collateral: Option<crate::world::Collateral>,
) -> bool {
    match find(o.contracts@, id.0) {
        None => n == o,
        Some(i) => {
            let k = o.contracts@[i];
            &&& m1 == World { contracts: m1.contracts, ..o }
            &&& m1.contracts@ == o.contracts@.update(i, ended(k))
            &&& match collateral {
                Some(crate::world::Collateral::Dwelling(d)) => {
                    &&& m2 == World { dwellings: m2.dwellings, ..m1 }
                    &&& row_changed(
                        m1.dwellings@,
                        m2.dwellings@,
                        d.0,
                        |x: Dwelling| with_owner(x, crate::housing::spec_owner_of(k.parties.0)),
                    )
                },
                Some(crate::world::Collateral::Shares(org, _)) => escrow_released(m1, m2, id, k.parties.0, Some(org)),
                None => m2 == m1,
            }
            &&& match k.parties.1 {
                Party::Citizen(c) => citizen_changed(m2, n, c, |x: Citizen| with_default(x)),
                Party::Org(_) => n == m2,
            }
        },
    }
}

/// The shares escrowed for a contract: the first entry held for it.
fn escrow_entry(world: &World, id: crate::ids::ContractId) -> (r: Option<usize>)
    ensures
        match r {
            Some(e) => first(world.share_escrow@, held_for(id)) == Some(e as int) && e < world.share_escrow@.len(),
            None => first(world.share_escrow@, held_for(id)) is None,
        },
{
    let es = &world.share_escrow;
    let mut k: usize = 0;
    while k < es.len()
        invariant
            k <= es@.len(),
            es@ == world.share_escrow@,
            forall|j: int| 0 <= j < k ==> !(held_for(id))(#[trigger] es@[j]),
        decreases es@.len() - k,
    {
        if es[k].key == crate::world::EscrowKey::Contract(id) {
            proof {
                assert((held_for(id))(es@[k as int]));
                crate::table::lemma_first(es@, held_for(id));
                let j = first(es@, held_for(id))->0;
                if j < k {
                    assert(!(held_for(id))(es@[j]));
                }
            }
            return Some(k);
        }
        k = k + 1;
    }
    proof {
        crate::table::lemma_first(es@, held_for(id));
    }
    None
}

/// Release the shares escrowed for contract `id` to `party`'s line in `org`
/// (the entry's own org where `org` is none).
fn release_escrow(world: &mut World, id: crate::ids::ContractId, party: Party, org: Option<OrgId>)
    requires
        old(world).wf(),
        releasable(*old(world), id, org),
    ensures
        final(world).wf(),
        escrow_released(*old(world), *final(world), id, party, org),
{
    let e = match escrow_entry(world, id) {
        Some(e) => e,
        None => {
            return;
        },
    };
    let entry = world.share_escrow.remove(e);
    assert(entry == old(world).share_escrow@[e as int]);
    assert(world.share_escrow@ == old(world).share_escrow@.remove(e as int));
    let target = match org {
        Some(g) => g,
        None => entry.org,
    };
    let h = match crate::shares::holder_of(party, target) {
        Some(h) => h,
        None => {
            assert(world.orgs == old(world).orgs);
            assert(*world == (World { share_escrow: world.share_escrow, orgs: world.orgs, ..*old(world) }));
            assert(crate::shares::spec_holder_of(party, target) is None);
            return;
        },
    };
    if let Some(i) = index_of(&world.orgs, target.0) {
        proof {
            lemma_find(world.orgs@, target.0);
            assert(old(world).orgs@[i as int].id == target);
        }
        let mut r = world.orgs.remove(i);
        assert(r == old(world).orgs@[i as int]);
        let nown = match &r.ownership {
            Ownership::Shares { issued, holdings } => Some(
                Ownership::Shares { issued: *issued, holdings: credit_line(holdings, h, entry.qty) },
            ),
            _ => None,
        };
        if let Some(x) = nown {
            r.ownership = x;
        }
        world.orgs.insert(i, r);
        proof {
            let n0 = old(world).orgs@;
            assert(world.orgs@ =~= n0.update(i as int, world.orgs@[i as int]));
            lemma_update_keeps_ids(n0, i as int, world.orgs@[i as int]);
            lemma_org_row_lists(n0, i as int, world.orgs@[i as int]);
            assert(took_shares(n0[i as int], world.orgs@[i as int], h, entry.qty));
        }
    }
}

/// Repay a loan: the contract ends and the shares pledged on it go back to the borrower.
fn repay(world: &mut World, id: crate::ids::ContractId)
    requires
        old(world).wf(),
        releasable(*old(world), id, None),
    ensures
        final(world).wf(),
        exists|mid: World| #[trigger] repaid_via(*old(world), mid, *final(world), id),
{
    if let Some(i) = index_of(&world.contracts, id.0) {
        proof {
            lemma_find(world.contracts@, id.0);
        }
        let k = world.contracts[i];
        let nk = Contract { status: ContractStatus::Ended, ..k };
        world.contracts.set(i, nk);
        proof {
            lemma_update_keeps_ids(old(world).contracts@, i as int, nk);
        }
        let ghost mid = *world;
        release_escrow(world, id, k.parties.1, None);
        assert(repaid_via(*old(world), mid, *world, id));
    } else {
        assert(repaid_via(*old(world), *world, *world, id));
    }
}

/// Mark a citizen as having defaulted.
fn mark_default(world: &mut World, id: CitizenId)
    requires
        old(world).wf(),
    ensures
        final(world).wf(),
        citizen_changed(*old(world), *final(world), id, |x: Citizen| with_default(x)),
{
    if let Some(i) = index_of(&world.citizens, id.0) {
        proof {
            lemma_find(world.citizens@, id.0);
        }
        let mut c = world.citizens.remove(i);
        c.flags.defaulted = true;
        world.citizens.insert(i, c);
        proof {
            let n0 = old(world).citizens@;
            assert(world.citizens@ =~= n0.update(i as int, with_default(n0[i as int])));
            lemma_update_keeps_ids(n0, i as int, with_default(n0[i as int]));
        }
    }
}

/// Default on a loan: the contract ends, the collateral goes to the lender,
/// and a borrowing citizen is marked.
fn default_on(world: &mut World, id: crate::ids::ContractId, collateral: Option<crate::world::Collateral>)
    requires
        old(world).wf(),
        collateral matches Some(crate::world::Collateral::Shares(org, _)) ==> releasable(*old(world), id, Some(org)),
    ensures
        final(world).wf(),
        exists|m1: World, m2: World| #[trigger] defaulted_via(*old(world), m1, m2, *final(world), id, collateral),
{
    if let Some(i) = index_of(&world.contracts, id.0) {
        proof {
            lemma_find(world.contracts@, id.0);
        }
        let k = world.contracts[i];
        let nk = Contract { status: ContractStatus::Ended, ..k };
        world.contracts.set(i, nk);
        proof {
            lemma_update_keeps_ids(old(world).contracts@, i as int, nk);
        }
        let ghost m1 = *world;
        match collateral {
            Some(crate::world::Collateral::Dwelling(d)) => {
                transfer_dwelling(world, d, crate::housing::owner_of(k.parties.0));
            },
            Some(crate::world::Collateral::Shares(org, _)) => {
                release_escrow(world, id, k.parties.0, Some(org));
            },
            None => {},
        }
        let ghost m2 = *world;
        match k.parties.1 {
            Party::Citizen(c) => {
                mark_default(world, c);
            },
            Party::Org(_) => {},
        }
        assert(defaulted_via(*old(world), m1, m2, *world, id, collateral));
    } else {
        assert(defaulted_via(*old(world), *world, *world, *world, id, collateral));
    }
}

/// Where `c` goes among members in id order: before the first larger id.
pub open spec fn member_place(s: Seq<CitizenId>, c: CitizenId) -> int {
    match first(s, |x: CitizenId| x.0 > c.0) {
        Some(k) => k,
        None => s.len() as int,
    }
}

/// Members with `c` among them, in its place by id (as they are where `c` is one).
pub open spec fn with_member(s: Seq<CitizenId>, c: CitizenId) -> Seq<CitizenId> {
    if s.contains(c) {
        s
    } else {
        s.insert(member_place(s, c), c)
    }
}

/// An org that admitted `c` (other orgs as they are).
pub open spec fn admitted(a: Org, b: Org, c: CitizenId) -> bool {
    b == Org { members: b.members, ..a } && b.members@ == with_member(a.members@, c)
}

/// Whether an offer is `c`'s request to join `org`.
pub open spec fn requests_membership(org: OrgId, c: CitizenId) -> spec_fn(crate::world::Offer) -> bool {
    |f: crate::world::Offer| f.body == crate::world::OfferBody::Membership { org, citizen: c }
}

/// The offers of `s` but those `p` picks, in order.
pub open spec fn offers_but(s: Seq<crate::world::Offer>, p: spec_fn(crate::world::Offer) -> bool) -> Seq<crate::world::Offer>
    decreases s.len(),
{
    if s.len() == 0 {
        s
    } else if p(s.last()) {
        offers_but(s.drop_last(), p)
    } else {
        offers_but(s.drop_last(), p).push(s.last())
    }
}

/// What admitting a member does: the org lists them and their requests to join come off the board.
pub open spec fn member_admitted(o: World, n: World, org: OrgId, c: CitizenId) -> bool {
    &&& n == World { orgs: n.orgs, offers: n.offers, ..o }
    &&& row_related(o.orgs@, n.orgs@, org.0, |a: Org, b: Org| admitted(a, b, c))
    &&& n.offers@ == offers_but(o.offers@, requests_membership(org, c))
}

/// A new position: no hours, normal effort, nothing worked yet.
pub open spec fn new_assignment(contract: Option<crate::ids::ContractId>) -> crate::world::Assignment {
    crate::world::Assignment { contract, hours: 0, effort: crate::kinds::Effort::Normal, cycle_tick_hours: 0 }
}

/// Where a worker goes among workers in citizen order: before the first larger id.
pub open spec fn worker_place(s: Seq<crate::world::Worker>, c: CitizenId) -> int {
    match first(s, |x: crate::world::Worker| x.citizen.0 > c.0) {
        Some(k) => k,
        None => s.len() as int,
    }
}

/// Whether `c` works somewhere in `s`.
pub open spec fn works_in(s: Seq<crate::world::Worker>, c: CitizenId) -> bool {
    exists|j: int| 0 <= j < s.len() && (#[trigger] s[j]).citizen == c
}

/// Workers with `c` among them in a new position (as they are where `c` already works there).
pub open spec fn with_worker(s: Seq<crate::world::Worker>, c: CitizenId, contract: Option<crate::ids::ContractId>) -> Seq<
    crate::world::Worker,
> {
    if works_in(s, c) {
        s
    } else {
        s.insert(worker_place(s, c), crate::world::Worker { citizen: c, assignment: new_assignment(contract) })
    }
}

/// A workplace that took `c` on (other workplaces as they are).
pub open spec fn took_on(a: Workplace, b: Workplace, c: CitizenId, contract: Option<crate::ids::ContractId>) -> bool {
    b == Workplace { workers: b.workers, ..a } && b.workers@ == with_worker(a.workers@, c, contract)
}

/// Members with `c` in its place.
fn add_member(v: &Vec<CitizenId>, c: CitizenId) -> (r: Vec<CitizenId>)
    ensures
        r@ == with_member(v@, c),
{
    let mut k: usize = 0;
    let mut pos: Option<usize> = None;
    while k < v.len()
        invariant
            k <= v@.len(),
            forall|j: int| 0 <= j < k ==> v@[j] != c,
            pos is None ==> forall|j: int| 0 <= j < k ==> !((|x: CitizenId| x.0 > c.0)(#[trigger] v@[j])),
            pos matches Some(q) ==> q < k && first(v@, |x: CitizenId| x.0 > c.0) == Some(q as int),
        decreases v@.len() - k,
    {
        if v[k] == c {
            proof {
                assert(v@.contains(c));
            }
            return crate::world::copy_list(v);
        }
        if pos.is_none() && v[k].0 > c.0 {
            proof {
                crate::table::lemma_first(v@, |x: CitizenId| x.0 > c.0);
                assert((|x: CitizenId| x.0 > c.0)(v@[k as int]));
                let j = first(v@, |x: CitizenId| x.0 > c.0)->0;
                if j < k {
                    assert(!((|x: CitizenId| x.0 > c.0)(v@[j])));
                }
            }
            pos = Some(k);
        }
        k = k + 1;
    }
    proof {
        assert(!v@.contains(c));
        crate::table::lemma_first(v@, |x: CitizenId| x.0 > c.0);
    }
    let mut r = crate::world::copy_list(v);
    let at = match pos {
        Some(q) => q,
        None => v.len(),
    };
    r.insert(at, c);
    r
}

/// Workers with `c` in a new position, where they are not one yet.
fn add_worker(v: &Vec<crate::world::Worker>, c: CitizenId, contract: Option<crate::ids::ContractId>) -> (r: Vec<crate::world::Worker>)
    ensures
        r@ == with_worker(v@, c, contract),
{
    let mut k: usize = 0;
    let mut pos: Option<usize> = None;
    while k < v.len()
        invariant
            k <= v@.len(),
            forall|j: int| 0 <= j < k ==> (#[trigger] v@[j]).citizen != c,
            pos is None ==> forall|j: int| 0 <= j < k ==> !((|x: crate::world::Worker| x.citizen.0 > c.0)(#[trigger] v@[j])),
            pos matches Some(q) ==> q < k && first(v@, |x: crate::world::Worker| x.citizen.0 > c.0) == Some(q as int),
        decreases v@.len() - k,
    {
        if v[k].citizen == c {
            proof {
                assert(works_in(v@, c));
            }
            return crate::world::copy_list(v);
        }
        if pos.is_none() && v[k].citizen.0 > c.0 {
            proof {
                crate::table::lemma_first(v@, |x: crate::world::Worker| x.citizen.0 > c.0);
                assert((|x: crate::world::Worker| x.citizen.0 > c.0)(v@[k as int]));
                let j = first(v@, |x: crate::world::Worker| x.citizen.0 > c.0)->0;
                if j < k {
                    assert(!((|x: crate::world::Worker| x.citizen.0 > c.0)(v@[j])));
                }
            }
            pos = Some(k);
        }
        k = k + 1;
    }
    proof {
        assert(!works_in(v@, c));
        crate::table::lemma_first(v@, |x: crate::world::Worker| x.citizen.0 > c.0);
    }
    let mut r = crate::world::copy_list(v);
    let at = match pos {
        Some(q) => q,
        None => v.len(),
    };
    r.insert(at, crate::world::Worker {
        citizen: c,
        assignment: crate::world::Assignment { contract, hours: 0, effort: crate::kinds::Effort::Normal, cycle_tick_hours: 0 },
    });
    r
}

/// Filtered offers keep their ids increasing.
proof fn lemma_offers_but_increasing(s: Seq<crate::world::Offer>, p: spec_fn(crate::world::Offer) -> bool)
    requires
        crate::table::ids_increasing(s),
    ensures
        crate::table::ids_increasing(offers_but(s, p)),
        forall|j: int| 0 <= j < offers_but(s, p).len() ==> exists|i: int| 0 <= i < s.len() && s[i] == #[trigger] offers_but(s, p)[j],
    decreases s.len(),
{
    if s.len() > 0 {
        let t = s.drop_last();
        assert(crate::table::ids_increasing(t)) by {
            assert forall|a: int, b: int| 0 <= a < b < t.len() implies t[a].key_of() < t[b].key_of() by {
                assert(t[a] == s[a] && t[b] == s[b]);
            }
        }
        lemma_offers_but_increasing(t, p);
        let r = offers_but(t, p);
        assert forall|j: int| 0 <= j < r.len() implies exists|i: int| 0 <= i < s.len() && s[i] == #[trigger] r[j] by {
            let i = choose|i: int| 0 <= i < t.len() && t[i] == r[j];
            assert(s[i] == t[i]);
        }
        if !p(s.last()) {
            let r2 = r.push(s.last());
            assert forall|a: int, b: int| 0 <= a < b < r2.len() implies r2[a].key_of() < r2[b].key_of() by {
                if b == r.len() {
                    let i = choose|i: int| 0 <= i < t.len() && t[i] == r[a];
                    assert(s[i] == t[i]);
                    assert(s[i].key_of() < s[s.len() - 1].key_of());
                } else {
                    assert(r2[a] == r[a] && r2[b] == r[b]);
                }
            }
            assert forall|j: int| 0 <= j < r2.len() implies exists|i: int| 0 <= i < s.len() && s[i] == #[trigger] r2[j] by {
                if j < r.len() {
                    assert(r2[j] == r[j]);
                } else {
                    assert(s[s.len() - 1] == r2[j]);
                }
            }
        }
    }
}

/// The board without `c`'s requests to join `org`.
fn drop_requests(v: &Vec<crate::world::Offer>, org: OrgId, c: CitizenId) -> (r: Vec<crate::world::Offer>)
    ensures
        r@ == offers_but(v@, requests_membership(org, c)),
{
    let mut r: Vec<crate::world::Offer> = Vec::new();
    let mut k: usize = 0;
    while k < v.len()
        invariant
            k <= v@.len(),
            r@ == offers_but(v@.take(k as int), requests_membership(org, c)),
        decreases v@.len() - k,
    {
        proof {
            assert(v@.take(k + 1).drop_last() =~= v@.take(k as int));
        }
        let f = v[k];
        let hit = match f.body {
            crate::world::OfferBody::Membership { org: x, citizen: y } => x == org && y == c,
            _ => false,
        };
        if !hit {
            r.push(f);
        }
        k = k + 1;
    }
    proof {
        assert(v@.take(v@.len() as int) =~= v@);
    }
    r
}

/// Admit a member: the org lists them and their requests to join come off the board.
fn admit_member(world: &mut World, org: OrgId, c: CitizenId)
    requires
        old(world).wf(),
    ensures
        final(world).wf(),
        member_admitted(*old(world), *final(world), org, c),
{
    if let Some(i) = index_of(&world.orgs, org.0) {
        let mut r = world.orgs.remove(i);
        proof {
            assert(crate::world::org_lists_ok(old(world).orgs@[i as int]));
            lemma_with_member_increasing(r.members@, c);
        }
        r.members = add_member(&r.members, c);
        world.orgs.insert(i, r);
        proof {
            assert(world.orgs@ =~= old(world).orgs@.update(i as int, world.orgs@[i as int]));
            lemma_update_keeps_ids(old(world).orgs@, i as int, world.orgs@[i as int]);
            lemma_org_row_lists(old(world).orgs@, i as int, world.orgs@[i as int]);
        }
    }
    let kept = drop_requests(&world.offers, org, c);
    world.offers = kept;
    proof {
        lemma_offers_but_increasing(old(world).offers@, requests_membership(org, c));
    }
}

/// Take a citizen on at a workplace, where they do not work there yet.
fn assign(world: &mut World, wp: WorkplaceId, c: CitizenId, contract: Option<crate::ids::ContractId>)
    requires
        old(world).wf(),
    ensures
        final(world).wf(),
        *final(world) == (World { workplaces: final(world).workplaces, ..*old(world) }),
        row_related(
            old(world).workplaces@,
            final(world).workplaces@,
            wp.0,
            |a: Workplace, b: Workplace| took_on(a, b, c, contract),
        ),
{
    if let Some(i) = index_of(&world.workplaces, wp.0) {
        let mut x = world.workplaces.remove(i);
        proof {
            assert(crate::world::workers_ok(old(world).workplaces@[i as int]));
            lemma_with_worker_increasing(x.workers@, c, contract);
        }
        x.workers = add_worker(&x.workers, c, contract);
        world.workplaces.insert(i, x);
        proof {
            assert(world.workplaces@ =~= old(world).workplaces@.update(i as int, world.workplaces@[i as int]));
            lemma_update_keeps_ids(old(world).workplaces@, i as int, world.workplaces@[i as int]);
            lemma_workplace_row_lists(old(world).workplaces@, i as int, world.workplaces@[i as int]);
        }
    }
}

/// Workers without `c`.
pub open spec fn without_worker(s: Seq<crate::world::Worker>, c: CitizenId) -> Seq<crate::world::Worker>
    decreases s.len(),
{
    if s.len() == 0 {
        s
    } else if s.last().citizen == c {
        without_worker(s.drop_last(), c)
    } else {
        without_worker(s.drop_last(), c).push(s.last())
    }
}

/// Allocations without those at `wp`.
pub open spec fn without_allocations_at(s: Seq<crate::world::Allocation>, wp: WorkplaceId) -> Seq<crate::world::Allocation>
    decreases s.len(),
{
    if s.len() == 0 {
        s
    } else if s.last().workplace == wp {
        without_allocations_at(s.drop_last(), wp)
    } else {
        without_allocations_at(s.drop_last(), wp).push(s.last())
    }
}

/// A workplace that let `c` go (and is otherwise as it was).
pub open spec fn let_go(a: Workplace, b: Workplace, c: CitizenId) -> bool {
    b == Workplace { workers: b.workers, ..a } && b.workers@ == without_worker(a.workers@, c)
}

/// A citizen whose hours no longer go to `wp` (and who is otherwise as they were).
pub open spec fn freed_from(a: Citizen, b: Citizen, wp: WorkplaceId) -> bool {
    &&& b == Citizen { labor: b.labor, ..a }
    &&& b.labor == crate::world::LaborState { allocations: b.labor.allocations, ..a.labor }
    &&& b.labor.allocations@ == without_allocations_at(a.labor.allocations@, wp)
}

/// `n` is `o` once `c` has left workplace `wp`: first the workplace lets
/// them go, then their hours there are dropped.
pub open spec fn unassigned_via(o: World, mid: World, n: World, wp: WorkplaceId, c: CitizenId) -> bool {
    &&& mid == World { workplaces: mid.workplaces, ..o }
    &&& row_related(o.workplaces@, mid.workplaces@, wp.0, |a: Workplace, b: Workplace| let_go(a, b, c))
    &&& n == World { citizens: n.citizens, ..mid }
    &&& row_related(mid.citizens@, n.citizens@, c.0, |a: Citizen, b: Citizen| freed_from(a, b, wp))
}

/// Workers without `c`.
fn workers_without(v: &Vec<crate::world::Worker>, c: CitizenId) -> (r: Vec<crate::world::Worker>)
    ensures
        r@ == without_worker(v@, c),
{
    let mut r: Vec<crate::world::Worker> = Vec::new();
    let mut k: usize = 0;
    while k < v.len()
        invariant
            k <= v@.len(),
            r@ == without_worker(v@.take(k as int), c),
        decreases v@.len() - k,
    {
        proof {
            assert(v@.take(k + 1).drop_last() =~= v@.take(k as int));
        }
        if v[k].citizen != c {
            r.push(v[k]);
        }
        k = k + 1;
    }
    proof {
        assert(v@.take(v@.len() as int) =~= v@);
    }
    r
}

/// Allocations without those at `wp`.
fn allocations_without(v: &Vec<crate::world::Allocation>, wp: WorkplaceId) -> (r: Vec<crate::world::Allocation>)
    ensures
        r@ == without_allocations_at(v@, wp),
{
    let mut r: Vec<crate::world::Allocation> = Vec::new();
    let mut k: usize = 0;
    while k < v.len()
        invariant
            k <= v@.len(),
            r@ == without_allocations_at(v@.take(k as int), wp),
        decreases v@.len() - k,
    {
        proof {
            assert(v@.take(k + 1).drop_last() =~= v@.take(k as int));
        }
        if v[k].workplace != wp {
            r.push(v[k]);
        }
        k = k + 1;
    }
    proof {
        assert(v@.take(v@.len() as int) =~= v@);
    }
    r
}

/// Workplace `wp` lets `c` go.
fn drop_worker(world: &mut World, wp: WorkplaceId, c: CitizenId)
    requires
        old(world).wf(),
    ensures
        final(world).wf(),
        *final(world) == (World { workplaces: final(world).workplaces, ..*old(world) }),
        row_related(old(world).workplaces@, final(world).workplaces@, wp.0, |a: Workplace, b: Workplace| let_go(a, b, c)),
{
    if let Some(i) = index_of(&world.workplaces, wp.0) {
        let mut x = world.workplaces.remove(i);
        proof {
            assert(crate::world::workers_ok(old(world).workplaces@[i as int]));
            lemma_without_worker_increasing(x.workers@, c);
        }
        x.workers = workers_without(&x.workers, c);
        world.workplaces.insert(i, x);
        proof {
            assert(world.workplaces@ =~= old(world).workplaces@.update(i as int, world.workplaces@[i as int]));
            lemma_update_keeps_ids(old(world).workplaces@, i as int, world.workplaces@[i as int]);
            lemma_workplace_row_lists(old(world).workplaces@, i as int, world.workplaces@[i as int]);
        }
    }
}

/// Citizen `c` no longer puts hours into `wp`.
fn free_allocations(world: &mut World, c: CitizenId, wp: WorkplaceId)
    requires
        old(world).wf(),
    ensures
        final(world).wf(),
        *final(world) == (World { citizens: final(world).citizens, ..*old(world) }),
        row_related(old(world).citizens@, final(world).citizens@, c.0, |a: Citizen, b: Citizen| freed_from(a, b, wp)),
{
    if let Some(i) = index_of(&world.citizens, c.0) {
        let mut x = world.citizens.remove(i);
        x.labor.allocations = allocations_without(&x.labor.allocations, wp);
        world.citizens.insert(i, x);
        proof {
            assert(world.citizens@ =~= old(world).citizens@.update(i as int, world.citizens@[i as int]));
            lemma_update_keeps_ids(old(world).citizens@, i as int, world.citizens@[i as int]);
        }
    }
}

/// Workers without `c`, where `c` is not among them, are the workers.
proof fn lemma_without_absent(s: Seq<crate::world::Worker>, c: CitizenId)
    requires
        !works_in(s, c),
    ensures
        without_worker(s, c) == s,
    decreases s.len(),
{
    if s.len() > 0 {
        assert(!works_in(s.drop_last(), c)) by {
            if works_in(s.drop_last(), c) {
                let j = choose|j: int| 0 <= j < s.drop_last().len() && (#[trigger] s.drop_last()[j]).citizen == c;
                assert(s[j].citizen == c);
            }
        }
        lemma_without_absent(s.drop_last(), c);
        assert(s.last().citizen != c) by {
            assert(s[s.len() - 1].citizen != c);
        }
        assert(s.drop_last().push(s.last()) =~= s);
    }
}

/// Removing `c` after inserting a position of theirs anywhere is removing
/// `c` from what was there.
proof fn lemma_without_insert(s: Seq<crate::world::Worker>, k: int, x: crate::world::Worker, c: CitizenId)
    requires
        0 <= k <= s.len(),
        x.citizen == c,
    ensures
        without_worker(s.insert(k, x), c) == without_worker(s, c),
    decreases s.len(),
{
    let t = s.insert(k, x);
    if k == s.len() {
        assert(t.drop_last() =~= s);
    } else {
        assert(t.drop_last() =~= s.drop_last().insert(k, x));
        assert(t.last() == s.last());
        lemma_without_insert(s.drop_last(), k, x, c);
    }
}

/// Leaving a workplace undoes joining it: a citizen who was not among its
/// workers, taken on and then let go, leaves the workers as they were.
pub proof fn lemma_leave_undoes_join(s: Seq<crate::world::Worker>, c: CitizenId, contract: Option<crate::ids::ContractId>)
    requires
        !works_in(s, c),
    ensures
        without_worker(with_worker(s, c, contract), c) == s,
{
    crate::table::lemma_first(s, |x: crate::world::Worker| x.citizen.0 > c.0);
    lemma_without_insert(
        s,
        worker_place(s, c),
        crate::world::Worker { citizen: c, assignment: new_assignment(contract) },
        c,
    );
    lemma_without_absent(s, c);
}

/// Replacing an org by one whose lists are kept, or are its old lists,
/// keeps every org's lists kept.
pub proof fn lemma_org_row_lists(s: Seq<Org>, i: int, x: Org)
    requires
        forall|k: int| 0 <= k < s.len() ==> #[trigger] crate::world::org_lists_ok(s[k]),
        0 <= i < s.len(),
        crate::world::org_lists_ok(x) || (x.members@ == s[i].members@ && x.employees@ == s[i].employees@
            && x.workplaces@ == s[i].workplaces@),
    ensures
        forall|k: int| 0 <= k < s.update(i, x).len() ==> #[trigger] crate::world::org_lists_ok(s.update(i, x)[k]),
{
    assert(crate::world::org_lists_ok(s[i]));
}

/// Replacing a workplace by one whose workers are kept, or are its old
/// workers, keeps every workplace's workers kept.
pub proof fn lemma_workplace_row_lists(s: Seq<Workplace>, i: int, x: Workplace)
    requires
        forall|k: int| 0 <= k < s.len() ==> #[trigger] crate::world::workers_ok(s[k]),
        0 <= i < s.len(),
        crate::world::workers_ok(x) || x.workers@ == s[i].workers@,
    ensures
        forall|k: int| 0 <= k < s.update(i, x).len() ==> #[trigger] crate::world::workers_ok(s.update(i, x)[k]),
{
    assert(crate::world::workers_ok(s[i]));
}

/// Entries dropped by key leave the rest in increasing order, each one of
/// the entries there were.
proof fn lemma_without_increasing<T: Keyed>(s: Seq<T>, x: u32)
    requires
        crate::table::ids_increasing(s),
    ensures
        crate::table::ids_increasing(without(s, x)),
        forall|i: int| 0 <= i < without(s, x).len() ==> exists|j: int| 0 <= j < s.len() && #[trigger] without(s, x)[i] == s[j],
    decreases s.len(),
{
    if s.len() > 0 {
        let t = s.drop_last();
        assert(crate::table::ids_increasing(t));
        lemma_without_increasing(t, x);
        let w = without(t, x);
        assert forall|i: int| 0 <= i < w.len() implies exists|j: int| 0 <= j < s.len() && #[trigger] w[i] == s[j] by {
            let j = choose|j: int| 0 <= j < t.len() && w[i] == t[j];
            assert(w[i] == s[j]);
        }
        if s.last().key_of() != x {
            let w2 = w.push(s.last());
            assert forall|i: int, j: int| 0 <= i < j < w2.len() implies (#[trigger] w2[i]).key_of() < (#[trigger] w2[j]).key_of() by {
                if j == w.len() {
                    let m = choose|m: int| 0 <= m < t.len() && w[i] == t[m];
                    assert(s[m] == w[i]);
                    assert(s[s.len() - 1] == w2[j]);
                } else {
                    assert(w2[i] == w[i] && w2[j] == w[j]);
                }
            }
            assert forall|i: int| 0 <= i < w2.len() implies exists|j: int| 0 <= j < s.len() && #[trigger] w2[i] == s[j] by {
                if i == w.len() {
                    assert(w2[i] == s[s.len() - 1]);
                } else {
                    assert(w2[i] == w[i]);
                    let j = choose|j: int| 0 <= j < s.len() && w[i] == s[j];
                }
            }
        }
    }
}

/// Workers without `c` stay in citizen order, each one of the workers there were.
proof fn lemma_without_worker_increasing(s: Seq<crate::world::Worker>, c: CitizenId)
    requires
        crate::world::workers_increasing(s),
    ensures
        crate::world::workers_increasing(without_worker(s, c)),
        forall|i: int| 0 <= i < without_worker(s, c).len() ==> exists|j: int| 0 <= j < s.len() && #[trigger] without_worker(s, c)[i] == s[j],
    decreases s.len(),
{
    if s.len() > 0 {
        let t = s.drop_last();
        assert(crate::world::workers_increasing(t));
        lemma_without_worker_increasing(t, c);
        let w = without_worker(t, c);
        assert forall|i: int| 0 <= i < w.len() implies exists|j: int| 0 <= j < s.len() && #[trigger] w[i] == s[j] by {
            let j = choose|j: int| 0 <= j < t.len() && w[i] == t[j];
            assert(w[i] == s[j]);
        }
        if s.last().citizen != c {
            let w2 = w.push(s.last());
            assert forall|i: int, j: int| 0 <= i < j < w2.len() implies (#[trigger] w2[i]).citizen.0 < (#[trigger] w2[j]).citizen.0 by {
                if j == w.len() {
                    let m = choose|m: int| 0 <= m < t.len() && w[i] == t[m];
                    assert(s[m] == w[i]);
                    assert(s[s.len() - 1] == w2[j]);
                } else {
                    assert(w2[i] == w[i] && w2[j] == w[j]);
                }
            }
            assert forall|i: int| 0 <= i < w2.len() implies exists|j: int| 0 <= j < s.len() && #[trigger] w2[i] == s[j] by {
                if i == w.len() {
                    assert(w2[i] == s[s.len() - 1]);
                } else {
                    assert(w2[i] == w[i]);
                    let j = choose|j: int| 0 <= j < s.len() && w[i] == s[j];
                }
            }
        }
    }
}

/// Admitting a member in their place keeps the members in id order.
proof fn lemma_with_member_increasing(s: Seq<CitizenId>, c: CitizenId)
    requires
        crate::table::ids_increasing(s),
    ensures
        crate::table::ids_increasing(with_member(s, c)),
{
    if !s.contains(c) {
        crate::table::lemma_first(s, |x: CitizenId| x.0 > c.0);
        let k = member_place(s, c);
        let r = s.insert(k, c);
        assert forall|j: int| 0 <= j < k implies (#[trigger] s[j]).0 < c.0 by {
            assert(!((|x: CitizenId| x.0 > c.0)(s[j])));
            if s[j].0 == c.0 {
                assert(s[j] == c);
                assert(s.contains(c));
            }
        }
        assert forall|j: int| k <= j < s.len() implies (#[trigger] s[j]).0 > c.0 by {
            if j > k {
                assert(s[k].key_of() < s[j].key_of());
            }
        }
        assert forall|i: int, j: int| 0 <= i < j < r.len() implies (#[trigger] r[i]).key_of() < (#[trigger] r[j]).key_of() by {
            if j < k {
                assert(r[i] == s[i] && r[j] == s[j]);
            } else if j == k {
                assert(r[i] == s[i]);
            } else if i < k {
                assert(r[i] == s[i] && r[j] == s[j - 1]);
            } else if i == k {
                assert(r[j] == s[j - 1]);
            } else {
                assert(r[i] == s[i - 1] && r[j] == s[j - 1]);
            }
        }
    }
}

/// Taking a worker on in their place keeps the workers in citizen order.
proof fn lemma_with_worker_increasing(s: Seq<crate::world::Worker>, c: CitizenId, contract: Option<crate::ids::ContractId>)
    requires
        crate::world::workers_increasing(s),
    ensures
        crate::world::workers_increasing(with_worker(s, c, contract)),
{
    if !works_in(s, c) {
        crate::table::lemma_first(s, |x: crate::world::Worker| x.citizen.0 > c.0);
        let k = worker_place(s, c);
        let y = crate::world::Worker { citizen: c, assignment: new_assignment(contract) };
        let r = s.insert(k, y);
        assert forall|j: int| 0 <= j < k implies (#[trigger] s[j]).citizen.0 < c.0 by {
            assert(!((|x: crate::world::Worker| x.citizen.0 > c.0)(s[j])));
            if s[j].citizen.0 == c.0 {
                assert(s[j].citizen == c);
            }
        }
        assert forall|j: int| k <= j < s.len() implies (#[trigger] s[j]).citizen.0 > c.0 by {
            if j > k {
                assert(s[k].citizen.0 < s[j].citizen.0);
            }
        }
        assert forall|i: int, j: int| 0 <= i < j < r.len() implies (#[trigger] r[i]).citizen.0 < (#[trigger] r[j]).citizen.0 by {
            if j < k {
                assert(r[i] == s[i] && r[j] == s[j]);
            } else if j == k {
                assert(r[i] == s[i]);
            } else if i < k {
                assert(r[i] == s[i] && r[j] == s[j - 1]);
            } else if i == k {
                assert(r[j] == s[j - 1]);
            } else {
                assert(r[i] == s[i - 1] && r[j] == s[j - 1]);
            }
        }
    }
}

/// Putting a row in its place by id keeps every org's lists kept, where
/// the row's are.
proof fn lemma_upserted_org_lists(o: Seq<Org>, n: Seq<Org>, x: Org)
    requires
        forall|k: int| 0 <= k < o.len() ==> #[trigger] crate::world::org_lists_ok(o[k]),
        crate::world::org_lists_ok(x),
        upserted(o, n, x),
    ensures
        forall|k: int| 0 <= k < n.len() ==> #[trigger] crate::world::org_lists_ok(n[k]),
{
    match find(o, x.key_of()) {
        Some(j) => {
            lemma_find(o, x.key_of());
            lemma_org_row_lists(o, j, x);
        },
        None => {
            let j = choose|j: int| 0 <= j <= o.len() && n == o.insert(j, x);
            assert forall|k: int| 0 <= k < n.len() implies #[trigger] crate::world::org_lists_ok(n[k]) by {
                if k < j {
                    assert(n[k] == o[k]);
                } else if k > j {
                    assert(n[k] == o[k - 1]);
                }
            }
        },
    }
}

/// Putting a workplace in its place by id keeps every workplace's workers
/// kept, where the row's are.
proof fn lemma_upserted_workplace_lists(o: Seq<Workplace>, n: Seq<Workplace>, x: Workplace)
    requires
        forall|k: int| 0 <= k < o.len() ==> #[trigger] crate::world::workers_ok(o[k]),
        crate::world::workers_ok(x),
        upserted(o, n, x),
    ensures
        forall|k: int| 0 <= k < n.len() ==> #[trigger] crate::world::workers_ok(n[k]),
{
    match find(o, x.key_of()) {
        Some(j) => {
            lemma_find(o, x.key_of());
            lemma_workplace_row_lists(o, j, x);
        },
        None => {
            let j = choose|j: int| 0 <= j <= o.len() && n == o.insert(j, x);
            assert forall|k: int| 0 <= k < n.len() implies #[trigger] crate::world::workers_ok(n[k]) by {
                if k < j {
                    assert(n[k] == o[k]);
                } else if k > j {
                    assert(n[k] == o[k - 1]);
                }
            }
        },
    }
}

/// Adding a workplace not yet listed keeps the list free of repeats.
proof fn lemma_push_fresh(s: Seq<WorkplaceId>, x: WorkplaceId)
    requires
        s.no_duplicates(),
        !s.contains(x),
    ensures
        s.push(x).no_duplicates(),
{
    let t = s.push(x);
    assert forall|i: int, j: int| 0 <= i < t.len() && 0 <= j < t.len() && i != j implies t[i] != t[j] by {
        if i < s.len() && j < s.len() {
            assert(t[i] == s[i] && t[j] == s[j]);
        } else if i < s.len() {
            assert(t[i] == s[i]);
        } else {
            assert(t[j] == s[j]);
        }
    }
}

/// The allocation a list makes to workplace `wp`: the last that names it.
pub open spec fn allocation_at(al: Seq<crate::world::Allocation>, wp: WorkplaceId) -> Option<crate::world::Allocation>
    decreases al.len(),
{
    if al.len() == 0 {
        None
    } else if al.last().workplace == wp {
        Some(al.last())
    } else {
        allocation_at(al.drop_last(), wp)
    }
}

/// A worker row once citizen `c` has set their labor: their row takes the
/// hours and effort allocated to the workplace, or no hours where none are.
pub open spec fn rehoured_worker(x: crate::world::Worker, c: CitizenId, a: Option<crate::world::Allocation>) -> crate::world::Worker {
    if x.citizen == c {
        match a {
            Some(al) => crate::world::Worker {
                assignment: crate::world::Assignment { hours: al.hours, effort: al.effort, ..x.assignment },
                ..x
            },
            None => crate::world::Worker { assignment: crate::world::Assignment { hours: 0, ..x.assignment }, ..x },
        }
    } else {
        x
    }
}

/// A workplace once citizen `c` has set their labor to `al`.
pub open spec fn rehoured(a: Workplace, b: Workplace, c: CitizenId, al: Seq<crate::world::Allocation>) -> bool {
    &&& b == Workplace { workers: b.workers, ..a }
    &&& b.workers@ == a.workers@.map_values(|x: crate::world::Worker| rehoured_worker(x, c, allocation_at(al, a.id)))
}

/// A citizen whose labor allocations are `al`.
pub open spec fn allocated(a: Citizen, b: Citizen, al: Seq<crate::world::Allocation>) -> bool {
    &&& b == Citizen { labor: b.labor, ..a }
    &&& b.labor == crate::world::LaborState { allocations: b.labor.allocations, ..a.labor }
    &&& b.labor.allocations@ == al
}

/// `n` is `o` once citizen `c` has set their labor to `al`: their
/// allocations, then each workplace's row for them.
pub open spec fn labor_set_via(o: World, mid: World, n: World, c: CitizenId, al: Seq<crate::world::Allocation>) -> bool {
    &&& mid == World { citizens: mid.citizens, ..o }
    &&& row_related(o.citizens@, mid.citizens@, c.0, |a: Citizen, b: Citizen| allocated(a, b, al))
    &&& n == World { workplaces: n.workplaces, ..mid }
    &&& n.workplaces@.len() == mid.workplaces@.len()
    &&& forall|i: int| 0 <= i < mid.workplaces@.len() ==> rehoured(#[trigger] mid.workplaces@[i], n.workplaces@[i], c, al)
}

/// The allocation a list makes to a workplace.
fn allocation_for(al: &Vec<crate::world::Allocation>, wp: WorkplaceId) -> (r: Option<crate::world::Allocation>)
    ensures
        r == allocation_at(al@, wp),
{
    let mut r: Option<crate::world::Allocation> = None;
    let mut k: usize = 0;
    while k < al.len()
        invariant
            k <= al@.len(),
            r == allocation_at(al@.take(k as int), wp),
        decreases al@.len() - k,
    {
        proof {
            assert(al@.take(k + 1).drop_last() =~= al@.take(k as int));
        }
        if al[k].workplace == wp {
            r = Some(al[k]);
        }
        k = k + 1;
    }
    proof {
        assert(al@.take(al@.len() as int) =~= al@);
    }
    r
}

/// A worker list once citizen `c` has set their labor.
fn rehour_workers(v: &Vec<crate::world::Worker>, c: CitizenId, a: Option<crate::world::Allocation>) -> (r: Vec<crate::world::Worker>)
    ensures
        r@ == v@.map_values(|x: crate::world::Worker| rehoured_worker(x, c, a)),
{
    let mut r: Vec<crate::world::Worker> = Vec::new();
    let mut k: usize = 0;
    while k < v.len()
        invariant
            k <= v@.len(),
            r@ == v@.take(k as int).map_values(|x: crate::world::Worker| rehoured_worker(x, c, a)),
        decreases v@.len() - k,
    {
        let x = v[k];
        let y = if x.citizen == c {
            match a {
                Some(al) => crate::world::Worker {
                    assignment: crate::world::Assignment { hours: al.hours, effort: al.effort, ..x.assignment },
                    ..x
                },
                None => crate::world::Worker { assignment: crate::world::Assignment { hours: 0, ..x.assignment }, ..x },
            }
        } else {
            x
        };
        r.push(y);
        proof {
            assert(v@.take(k + 1).map_values(|x: crate::world::Worker| rehoured_worker(x, c, a)) =~= v@.take(
                k as int,
            ).map_values(|x: crate::world::Worker| rehoured_worker(x, c, a)).push(y));
        }
        k = k + 1;
    }
    proof {
        assert(v@.take(v@.len() as int) =~= v@);
    }
    r
}

/// A copy of a list of allocations.
fn copy_allocations(v: &Vec<crate::world::Allocation>) -> (r: Vec<crate::world::Allocation>)
    ensures
        r@ == v@,
{
    let mut r: Vec<crate::world::Allocation> = Vec::new();
    let mut k: usize = 0;
    while k < v.len()
        invariant
            k <= v@.len(),
            r@ == v@.take(k as int),
        decreases v@.len() - k,
    {
        r.push(v[k]);
        proof {
            assert(v@.take(k + 1) =~= v@.take(k as int).push(v@[k as int]));
        }
        k = k + 1;
    }
    proof {
        assert(v@.take(v@.len() as int) =~= v@);
    }
    r
}

/// Set a citizen's labor: their allocations, mirrored into the workplaces'
/// worker rows.
fn set_labor(world: &mut World, id: CitizenId, al: &Vec<crate::world::Allocation>)
    requires
        old(world).wf(),
    ensures
        final(world).wf(),
        exists|mid: World| #[trigger] labor_set_via(*old(world), mid, *final(world), id, al@),
{
    let ghost o = *world;
    if let Some(i) = index_of(&world.citizens, id.0) {
        let mut c = world.citizens.remove(i);
        c.labor.allocations = copy_allocations(al);
        world.citizens.insert(i, c);
        proof {
            assert(world.citizens@ =~= o.citizens@.update(i as int, world.citizens@[i as int]));
            lemma_update_keeps_ids(o.citizens@, i as int, world.citizens@[i as int]);
        }
    }
    let ghost mid = *world;
    proof {
        lemma_find(o.citizens@, id.0);
        assert(row_related(o.citizens@, mid.citizens@, id.0, |a: Citizen, b: Citizen| allocated(a, b, al@)));
    }
    let n = world.workplaces.len();
    let mut k: usize = 0;
    while k < n
        invariant
            k <= n,
            n == mid.workplaces@.len(),
            mid.wf(),
            world.wf(),
            *world == (World { workplaces: world.workplaces, ..mid }),
            world.workplaces@.len() == n,
            forall|j: int| 0 <= j < k ==> rehoured(#[trigger] mid.workplaces@[j], world.workplaces@[j], id, al@),
            forall|j: int| k <= j < n ==> #[trigger] world.workplaces@[j] == mid.workplaces@[j],
        decreases n - k,
    {
        let mut wp = world.workplaces.remove(k);
        let a = allocation_for(al, wp.id);
        wp.workers = rehour_workers(&wp.workers, id, a);
        world.workplaces.insert(k, wp);
        proof {
            let x = world.workplaces@[k as int];
            let before = world.workplaces@;
            assert(rehoured(mid.workplaces@[k as int], x, id, al@));
            assert forall|p: int, q: int| 0 <= p < q < x.workers@.len() implies (#[trigger] x.workers@[p]).citizen.0 < (
            #[trigger] x.workers@[q]).citizen.0 by {
                assert(crate::world::workers_ok(mid.workplaces@[k as int]));
                assert(mid.workplaces@[k as int].workers@[p].citizen.0 < mid.workplaces@[k as int].workers@[q].citizen.0);
            }
            assert(crate::world::workers_ok(x));
        }
        k = k + 1;
        proof {
            assert forall|j: int| 0 <= j < k implies rehoured(#[trigger] mid.workplaces@[j], world.workplaces@[j], id, al@) by {}
        }
    }
    proof {
        assert(labor_set_via(o, mid, *world, id, al@));
    }
}

/// Where `c` goes among employment contracts in id order: before the first larger id.
pub open spec fn employee_place(s: Seq<crate::ids::ContractId>, c: crate::ids::ContractId) -> int {
    match first(s, |x: crate::ids::ContractId| x.0 > c.0) {
        Some(k) => k,
        None => s.len() as int,
    }
}

/// Employment contracts with `c` among them, in its place by id (as they are where `c` is one).
pub open spec fn with_employee(s: Seq<crate::ids::ContractId>, c: crate::ids::ContractId) -> Seq<crate::ids::ContractId> {
    if s.contains(c) {
        s
    } else {
        s.insert(employee_place(s, c), c)
    }
}

/// Employment contracts with `c` in its place.
fn add_employee(v: &Vec<crate::ids::ContractId>, c: crate::ids::ContractId) -> (r: Vec<crate::ids::ContractId>)
    ensures
        r@ == with_employee(v@, c),
{
    let mut k: usize = 0;
    let mut pos: Option<usize> = None;
    while k < v.len()
        invariant
            k <= v@.len(),
            forall|j: int| 0 <= j < k ==> v@[j] != c,
            pos is None ==> forall|j: int| 0 <= j < k ==> !((|x: crate::ids::ContractId| x.0 > c.0)(#[trigger] v@[j])),
            pos matches Some(q) ==> q < k && first(v@, |x: crate::ids::ContractId| x.0 > c.0) == Some(q as int),
        decreases v@.len() - k,
    {
        if v[k] == c {
            proof {
                assert(v@.contains(c));
            }
            return crate::world::copy_list(v);
        }
        if pos.is_none() && v[k].0 > c.0 {
            proof {
                crate::table::lemma_first(v@, |x: crate::ids::ContractId| x.0 > c.0);
                assert((|x: crate::ids::ContractId| x.0 > c.0)(v@[k as int]));
                let j = first(v@, |x: crate::ids::ContractId| x.0 > c.0)->0;
                if j < k {
                    assert(!((|x: crate::ids::ContractId| x.0 > c.0)(v@[j])));
                }
            }
            pos = Some(k);
        }
        k = k + 1;
    }
    proof {
        assert(!v@.contains(c));
        crate::table::lemma_first(v@, |x: crate::ids::ContractId| x.0 > c.0);
    }
    let mut r = crate::world::copy_list(v);
    let at = match pos {
        Some(q) => q,
        None => v.len(),
    };
    r.insert(at, c);
    r
}

/// Admitting a employment contract in their place keeps the employment contracts in id order.
proof fn lemma_with_employee_increasing(s: Seq<crate::ids::ContractId>, c: crate::ids::ContractId)
    requires
        crate::table::ids_increasing(s),
    ensures
        crate::table::ids_increasing(with_employee(s, c)),
{
    if !s.contains(c) {
        crate::table::lemma_first(s, |x: crate::ids::ContractId| x.0 > c.0);
        let k = employee_place(s, c);
        let r = s.insert(k, c);
        assert forall|j: int| 0 <= j < k implies (#[trigger] s[j]).0 < c.0 by {
            assert(!((|x: crate::ids::ContractId| x.0 > c.0)(s[j])));
            if s[j].0 == c.0 {
                assert(s[j] == c);
                assert(s.contains(c));
            }
        }
        assert forall|j: int| k <= j < s.len() implies (#[trigger] s[j]).0 > c.0 by {
            if j > k {
                assert(s[k].key_of() < s[j].key_of());
            }
        }
        assert forall|i: int, j: int| 0 <= i < j < r.len() implies (#[trigger] r[i]).key_of() < (#[trigger] r[j]).key_of() by {
            if j < k {
                assert(r[i] == s[i] && r[j] == s[j]);
            } else if j == k {
                assert(r[i] == s[i]);
            } else if i < k {
                assert(r[i] == s[i] && r[j] == s[j - 1]);
            } else if i == k {
                assert(r[j] == s[j - 1]);
            } else {
                assert(r[i] == s[i - 1] && r[j] == s[j - 1]);
            }
        }
    }
}

/// An org that took on employment contract `k` (other orgs as they are).
pub open spec fn hired(a: Org, b: Org, k: crate::ids::ContractId) -> bool {
    b == Org { employees: b.employees, ..a } && b.employees@ == with_employee(a.employees@, k)
}

/// The offer board once a place on job ad `id` is taken: one place fewer,
/// and the ad comes down with its last place (other offers as they are).
pub open spec fn place_taken(o: Seq<crate::world::Offer>, n: Seq<crate::world::Offer>, id: crate::ids::OfferId) -> bool {
    match find(o, id.0) {
        None => n == o,
        Some(i) => match o[i].body {
            crate::world::OfferBody::Employment { org, workplace, pay, max_hours, term_cycles, notice_cycles, places } => if places
                <= 1 {
                n == o.remove(i)
            } else {
                n == o.update(
                    i,
                    crate::world::Offer {
                        body: crate::world::OfferBody::Employment {
                            org,
                            workplace,
                            pay,
                            max_hours,
                            term_cycles,
                            notice_cycles,
                            places: (places - 1) as u32,
                        },
                        ..o[i]
                    },
                )
            },
            _ => n == o,
        },
    }
}

/// The contract an accepted job ad makes.
pub open spec fn job_contract(
    contract: crate::ids::ContractId,
    org: OrgId,
    workplace: WorkplaceId,
    citizen: CitizenId,
    pay: crate::world::Pay,
    max_hours: u8,
    term_cycles: Option<u32>,
    notice_cycles: u32,
    tick: crate::ids::Tick,
) -> Contract {
    Contract {
        id: contract,
        parties: (Party::Org(org), Party::Citizen(citizen)),
        created_tick: tick,
        term_cycles,
        status: crate::world::ContractStatus::Active,
        body: crate::world::ContractBody::Employment { org, workplace, pay, max_hours, notice_cycles },
    }
}

/// What accepting a job ad does: the contract is made, the org lists it
/// among its employees, the ad has one place fewer, and the contract counter
/// moves past the id.
pub open spec fn employment_accepted(o: World, n: World, x: Contract, org: OrgId, offer: crate::ids::OfferId) -> bool {
    &&& n == World {
        contracts: n.contracts,
        orgs: n.orgs,
        offers: n.offers,
        next: crate::world::NextIds { contract: crate::ids::ContractId(bumped(o.next.contract.0, x.id.0)), ..o.next },
        ..o
    }
    &&& upserted(o.contracts@, n.contracts@, x)
    &&& row_related(o.orgs@, n.orgs@, org.0, |a: Org, b: Org| hired(a, b, x.id))
    &&& place_taken(o.offers@, n.offers@, offer)
}

/// Take one place off a job ad.
fn take_place(world: &mut World, id: crate::ids::OfferId)
    requires
        old(world).wf(),
    ensures
        final(world).wf(),
        *final(world) == (World { offers: final(world).offers, ..*old(world) }),
        place_taken(old(world).offers@, final(world).offers@, id),
{
    if let Some(i) = index_of(&world.offers, id.0) {
        let f = world.offers[i];
        match f.body {
            crate::world::OfferBody::Employment { org, workplace, pay, max_hours, term_cycles, notice_cycles, places } => {
                if places <= 1 {
                    remove_offer(world, id);
                } else {
                    let g = crate::world::Offer {
                        body: crate::world::OfferBody::Employment {
                            org,
                            workplace,
                            pay,
                            max_hours,
                            term_cycles,
                            notice_cycles,
                            places: places - 1,
                        },
                        ..f
                    };
                    world.offers.set(i, g);
                    proof {
                        lemma_update_keeps_ids(old(world).offers@, i as int, g);
                    }
                }
            },
            _ => {},
        }
    }
}

/// List an employment contract among an org's employees.
fn hire(world: &mut World, org: OrgId, k: crate::ids::ContractId)
    requires
        old(world).wf(),
    ensures
        final(world).wf(),
        *final(world) == (World { orgs: final(world).orgs, ..*old(world) }),
        row_related(old(world).orgs@, final(world).orgs@, org.0, |a: Org, b: Org| hired(a, b, k)),
{
    if let Some(i) = index_of(&world.orgs, org.0) {
        let mut r = world.orgs.remove(i);
        proof {
            assert(crate::world::org_lists_ok(old(world).orgs@[i as int]));
            lemma_with_employee_increasing(r.employees@, k);
        }
        r.employees = add_employee(&r.employees, k);
        world.orgs.insert(i, r);
        proof {
            assert(world.orgs@ =~= old(world).orgs@.update(i as int, world.orgs@[i as int]));
            lemma_update_keeps_ids(old(world).orgs@, i as int, world.orgs@[i as int]);
            lemma_org_row_lists(old(world).orgs@, i as int, world.orgs@[i as int]);
        }
    }
}

/// Make the contract of an accepted job ad.
fn accept_job(world: &mut World, x: Contract, org: OrgId, offer: crate::ids::OfferId)
    requires
        old(world).wf(),
        old(world).next.contract.0 <= x.id.0 ==> x.id.0 < u32::MAX,
    ensures
        final(world).wf(),
        employment_accepted(*old(world), *final(world), x, org, offer),
{
    let ghost before = world.contracts@;
    upsert(&mut world.contracts, x);
    assert(upserted(before, world.contracts@, x));
    hire(world, org, x.id);
    take_place(world, offer);
    if world.next.contract.0 <= x.id.0 {
        world.next.contract = crate::ids::ContractId(x.id.0 + 1);
    }
}

/// The contract an accepted lease makes.
pub open spec fn lease_contract(
    contract: crate::ids::ContractId,
    owner: Party,
    tenant: Party,
    asset: crate::world::LeaseAsset,
    rent_per_cycle: Money,
    term_cycles: Option<u32>,
    tick: crate::ids::Tick,
) -> Contract {
    Contract {
        id: contract,
        parties: (owner, tenant),
        created_tick: tick,
        term_cycles,
        status: crate::world::ContractStatus::Active,
        body: crate::world::ContractBody::Lease { asset, rent_per_cycle, missed_cycles: 0 },
    }
}

/// A dwelling let under contract `k`.
pub open spec fn leased(y: crate::world::Dwelling, k: crate::ids::ContractId) -> crate::world::Dwelling {
    crate::world::Dwelling { lease: Some(k), ..y }
}

/// Whether an offer lets dwelling `d`.
pub open spec fn lets_dwelling(d: crate::ids::DwellingId) -> spec_fn(crate::world::Offer) -> bool {
    |f: crate::world::Offer|
        f.body matches crate::world::OfferBody::Lease { asset: crate::world::LeaseAsset::Dwelling(x), .. } && x == d
}

/// What accepting a lease on dwelling `d` does: the contract is made, the
/// dwelling is let under it, every offer to let it comes off the board, and
/// the contract counter moves past the id.
pub open spec fn lease_accepted(o: World, n: World, x: Contract, d: crate::ids::DwellingId) -> bool {
    &&& n == World {
        contracts: n.contracts,
        dwellings: n.dwellings,
        offers: n.offers,
        next: crate::world::NextIds { contract: crate::ids::ContractId(bumped(o.next.contract.0, x.id.0)), ..o.next },
        ..o
    }
    &&& upserted(o.contracts@, n.contracts@, x)
    &&& row_changed(o.dwellings@, n.dwellings@, d.0, |y: crate::world::Dwelling| leased(y, x.id))
    &&& n.offers@ == offers_but(o.offers@, lets_dwelling(d))
}

/// The offers but those letting dwelling `d`.
fn drop_lease_offers(v: &Vec<crate::world::Offer>, d: crate::ids::DwellingId) -> (r: Vec<crate::world::Offer>)
    ensures
        r@ == offers_but(v@, lets_dwelling(d)),
{
    let mut r: Vec<crate::world::Offer> = Vec::new();
    let mut k: usize = 0;
    while k < v.len()
        invariant
            k <= v@.len(),
            r@ == offers_but(v@.take(k as int), lets_dwelling(d)),
        decreases v@.len() - k,
    {
        proof {
            assert(v@.take(k + 1).drop_last() =~= v@.take(k as int));
        }
        let f = v[k];
        let hit = match f.body {
            crate::world::OfferBody::Lease { asset: crate::world::LeaseAsset::Dwelling(x), .. } => x == d,
            _ => false,
        };
        if !hit {
            r.push(f);
        }
        k = k + 1;
    }
    proof {
        assert(v@.take(v@.len() as int) =~= v@);
    }
    r
}

/// Let a dwelling under a new lease contract.
fn let_dwelling(world: &mut World, x: Contract, d: crate::ids::DwellingId)
    requires
        old(world).wf(),
        old(world).next.contract.0 <= x.id.0 ==> x.id.0 < u32::MAX,
    ensures
        final(world).wf(),
        lease_accepted(*old(world), *final(world), x, d),
{
    let ghost before = world.contracts@;
    upsert(&mut world.contracts, x);
    assert(upserted(before, world.contracts@, x));
    if let Some(i) = index_of(&world.dwellings, d.0) {
        let y = world.dwellings[i];
        let z = crate::world::Dwelling { lease: Some(x.id), ..y };
        world.dwellings.set(i, z);
        proof {
            lemma_update_keeps_ids(old(world).dwellings@, i as int, z);
        }
    }
    let kept = drop_lease_offers(&world.offers, d);
    world.offers = kept;
    proof {
        lemma_offers_but_increasing(old(world).offers@, lets_dwelling(d));
    }
    if world.next.contract.0 <= x.id.0 {
        world.next.contract = crate::ids::ContractId(x.id.0 + 1);
    }
}

} // verus!
