//! Dwellings: who owns them, whether one may be offered for sale, and the
//! rent and evictions at a cycle's turn.
use crate::apply::{applied, holder, money_of, spec_money_of};
use crate::command::{acting_citizen, spec_acting_citizen, Envelope, Reject, RejectCode};
use crate::event::Actor;
use crate::conservation::solvent;
use crate::event::Event;
use crate::ids::{ContractId, DwellingId, Tick};
use crate::ledger::{Asset, Party};
use crate::money::Money;
use crate::table::{find, ids_increasing, index_of, lemma_find, lemma_find_unique, lemma_update_keeps_ids, Keyed};
use crate::tick::{
    folded, lemma_folded_append, lemma_folded_none, lemma_folded_step, lemma_money_of_bounded, lemma_payment_bounded,
    lemma_payment_movable, lemma_vacate_bounded, purses, purses_bounded, TickBuilder,
};
use crate::world::{Contract, ContractBody, ContractStatus, LeaseAsset, Offer, OfferBody, Owner, SaleAsset, World};
use crate::message::{put, put_citizen, put_contract, put_dwelling, put_kind, put_money, put_name, put_num, put_org, put_party, put_slot, put_workplace, say};
use vstd::prelude::*;

verus! {

/// The owner a party acts as.
pub open spec fn spec_owner_of(party: Party) -> Owner {
    match party {
        Party::Citizen(c) => Owner::Citizen(c),
        Party::Org(o) => Owner::Org(o),
    }
}

/// The owner a party acts as.
pub fn owner_of(party: Party) -> (o: Owner)
    ensures
        o == spec_owner_of(party),
{
    match party {
        Party::Citizen(c) => Owner::Citizen(c),
        Party::Org(o) => Owner::Org(o),
    }
}

/// Whether an offer sells or lets the dwelling.
pub open spec fn offers_dwelling(f: Offer, id: DwellingId) -> bool {
    match f.body {
        OfferBody::Sale { asset: SaleAsset::Dwelling(d), .. } => d == id,
        OfferBody::Lease { asset: LeaseAsset::Dwelling(d), .. } => d == id,
        _ => false,
    }
}

/// Whether the dwelling is under an open sale or lease offer.
pub open spec fn under_offer(w: World, id: DwellingId) -> bool {
    exists|j: int| 0 <= j < w.offers@.len() && offers_dwelling(#[trigger] w.offers@[j], id)
}

/// Whether some offer in the list sells or lets the dwelling.
fn offered(offers: &Vec<Offer>, id: DwellingId) -> (b: bool)
    ensures
        b == exists|j: int| 0 <= j < offers@.len() && offers_dwelling(#[trigger] offers@[j], id),
{
    let mut k: usize = 0;
    while k < offers.len()
        invariant
            k <= offers@.len(),
            forall|j: int| 0 <= j < k ==> !offers_dwelling(#[trigger] offers@[j], id),
        decreases offers@.len() - k,
    {
        let f = offers[k];
        let hit = match f.body {
            OfferBody::Sale { asset: SaleAsset::Dwelling(d), .. } => d == id,
            OfferBody::Lease { asset: LeaseAsset::Dwelling(d), .. } => d == id,
            _ => false,
        };
        if hit {
            assert(offers_dwelling(offers@[k as int], id));
            return true;
        }
        k = k + 1;
    }
    false
}

/// The checks for offering a dwelling for sale: it exists, the seller owns
/// it, and it is not already offered.
pub open spec fn spec_check_dwelling_sale(w: World, seller: Party, id: DwellingId) -> Result<(), RejectCode> {
    match find(w.dwellings@, id.0) {
        None => Err(RejectCode::UnknownDwelling),
        Some(i) => if w.dwellings@[i].owner != spec_owner_of(seller) {
            Err(RejectCode::NotOwner)
        } else if under_offer(w, id) {
            Err(RejectCode::AlreadyExists)
        } else {
            Ok(())
        },
    }
}

/// Checks for offering a dwelling for sale.
pub fn check_dwelling_sale(world: &World, seller: Party, id: DwellingId) -> (r: Result<(), Reject>)
    ensures
        match (r, spec_check_dwelling_sale(*world, seller, id)) {
            (Ok(_), Ok(_)) => true,
            (Err(e), Err(c)) => e.code == c,
            _ => false,
        },
{
    let i = match index_of(&world.dwellings, id.0) {
        Some(i) => i,
        None => {
            return Err(Reject::new(RejectCode::UnknownDwelling, { let mut m = say("no dwelling "); put_dwelling(&mut m, id); m }));
        },
    };
    if world.dwellings[i].owner != owner_of(seller) {
        return Err(Reject::new(RejectCode::NotOwner, { let mut m = String::new(); put_party(&mut m, seller); put(&mut m, " does not own "); put_dwelling(&mut m, id); m }));
    }
    if offered(&world.offers, id) {
        return Err(Reject::new(RejectCode::AlreadyExists, { let mut m = String::new(); put_dwelling(&mut m, id); put(&mut m, " is already offered"); m }));
    }
    Ok(())
}

/// Whether the tick opens a cycle.
pub open spec fn opens_cycle(w: World, tick: Tick) -> bool {
    tick as int % w.params.time.ticks_per_cycle as int == 0
}

/// A dwelling lease and what the cycle's end needs of it.
#[derive(Clone, Copy, Debug, PartialEq, Eq, Structural)]
pub struct DwellingLease {
    pub id: ContractId,
    pub owner: Party,
    pub tenant: Party,
    pub dwelling: DwellingId,
    pub rent: Money,
    pub missed_cycles: u32,
    pub term_cycles: Option<u32>,
    pub created_tick: Tick,
}

/// An active contract's dwelling lease, if it is one.
pub open spec fn dwelling_lease(k: Contract) -> Option<DwellingLease> {
    if k.status == ContractStatus::Active {
        match k.body {
            ContractBody::Lease { asset: LeaseAsset::Dwelling(d), rent_per_cycle, missed_cycles } => Some(
                DwellingLease {
                    id: k.id,
                    owner: k.parties.0,
                    tenant: k.parties.1,
                    dwelling: d,
                    rent: rent_per_cycle,
                    missed_cycles,
                    term_cycles: k.term_cycles,
                    created_tick: k.created_tick,
                },
            ),
            _ => None,
        }
    } else {
        None
    }
}

/// The active dwelling leases among `cs`, in order.
pub open spec fn dwelling_leases(cs: Seq<Contract>) -> Seq<DwellingLease>
    decreases cs.len(),
{
    if cs.len() == 0 {
        Seq::empty()
    } else {
        match dwelling_lease(cs.last()) {
            Some(l) => dwelling_leases(cs.drop_last()).push(l),
            None => dwelling_leases(cs.drop_last()),
        }
    }
}

/// Taking one more contract into account.
proof fn lemma_dwelling_leases_step(cs: Seq<Contract>, i: int)
    requires
        0 <= i < cs.len(),
    ensures
        dwelling_leases(cs.take(i + 1)) == match dwelling_lease(cs[i]) {
            Some(l) => dwelling_leases(cs.take(i)).push(l),
            None => dwelling_leases(cs.take(i)),
        },
{
    assert(cs.take(i + 1).drop_last() =~= cs.take(i));
}

/// The active dwelling leases of a world, in contract order.
pub fn active_dwelling_leases(world: &World) -> (v: Vec<DwellingLease>)
    ensures
        v@ == dwelling_leases(world.contracts@),
{
    let cs = &world.contracts;
    let mut v: Vec<DwellingLease> = Vec::new();
    let mut i: usize = 0;
    while i < cs.len()
        invariant
            i <= cs@.len(),
            cs@ == world.contracts@,
            v@ == dwelling_leases(cs@.take(i as int)),
        decreases cs@.len() - i,
    {
        proof {
            lemma_dwelling_leases_step(cs@, i as int);
        }
        let k = &cs[i];
        if k.status == ContractStatus::Active {
            match k.body {
                ContractBody::Lease { asset: LeaseAsset::Dwelling(d), rent_per_cycle, missed_cycles } => {
                    v.push(
                        DwellingLease {
                            id: k.id,
                            owner: k.parties.0,
                            tenant: k.parties.1,
                            dwelling: d,
                            rent: rent_per_cycle,
                            missed_cycles,
                            term_cycles: k.term_cycles,
                            created_tick: k.created_tick,
                        },
                    );
                },
                _ => {},
            }
        }
        i = i + 1;
    }
    proof {
        assert(cs@.take(cs@.len() as int) =~= cs@);
    }
    v
}

/// What evicting a tenant emits: the lease ends, evicted, and the dwelling is vacated.
pub open spec fn eviction(l: DwellingLease) -> Seq<Event> {
    seq![Event::LeaseEnded { contract: l.id, evicted: true }, Event::DwellingOccupied { dwelling: l.dwelling, citizen: None }]
}

/// What evicting every lease of `ls` that has missed more rents than `grace` emits, in order.
pub open spec fn evictions(ls: Seq<DwellingLease>, grace: u32) -> Seq<Event>
    decreases ls.len(),
{
    if ls.len() == 0 {
        Seq::empty()
    } else if ls.last().missed_cycles > grace {
        evictions(ls.drop_last(), grace) + eviction(ls.last())
    } else {
        evictions(ls.drop_last(), grace)
    }
}

/// What the first tick of a cycle evicts: tenants whose missed rents exceed the grace.
pub open spec fn due_evictions(w: World, tick: Tick) -> Seq<Event> {
    if opens_cycle(w, tick) {
        evictions(dwelling_leases(w.contracts@), w.params.contracts.lease_grace_cycles)
    } else {
        Seq::empty()
    }
}

/// Emit one eviction.
fn evict(b: &mut TickBuilder, l: DwellingLease, Ghost(w0): Ghost<World>, Ghost(done): Ghost<Seq<Event>>)
    requires
        old(b).world.wf(),
        folded(w0, done, old(b).world),
    ensures
        final(b).world.wf(),
        final(b).tick == old(b).tick,
        final(b).cycle == old(b).cycle,
        final(b).events@ == old(b).events@ + eviction(l),
        folded(w0, done + eviction(l), final(b).world),
{
    let ghost before = b.world;
    let e1 = Event::LeaseEnded { contract: l.id, evicted: true };
    let e2 = Event::DwellingOccupied { dwelling: l.dwelling, citizen: None };
    let ghost g1 = e1;
    let ghost g2 = e2;
    b.emit(e1);
    proof {
        lemma_folded_step(w0, done, before, b.world, g1);
    }
    let ghost mid = b.world;
    b.emit(e2);
    proof {
        lemma_folded_step(w0, done.push(g1), mid, b.world, g2);
        assert(done.push(g1).push(g2) =~= done + eviction(l));
        assert(old(b).events@.push(g1).push(g2) =~= old(b).events@ + eviction(l));
    }
}

/// Phase 7, first tick of a cycle: evict the tenants whose missed rents
/// exceed the grace the society allows.
pub fn phase_7_evictions(b: &mut TickBuilder)
    requires
        old(b).world.wf(),
    ensures
        final(b).world.wf(),
        final(b).tick == old(b).tick,
        final(b).cycle == old(b).cycle,
        final(b).events@ == old(b).events@ + due_evictions(old(b).world, old(b).tick),
        folded(old(b).world, due_evictions(old(b).world, old(b).tick), final(b).world),
{
    if b.tick % b.world.params.time.ticks_per_cycle != 0 {
        proof {
            lemma_folded_none(b.world);
            assert(b.events@ + Seq::<Event>::empty() =~= b.events@);
        }
        return;
    }
    let grace = b.world.params.contracts.lease_grace_cycles;
    let ghost w0 = b.world;
    let ghost start = b.events@;
    let leases = active_dwelling_leases(&b.world);
    let mut k: usize = 0;
    proof {
        lemma_folded_none(w0);
        assert(leases@.take(0) =~= Seq::<DwellingLease>::empty());
        assert(start + Seq::<Event>::empty() =~= start);
    }
    while k < leases.len()
        invariant
            k <= leases@.len(),
            leases@ == dwelling_leases(w0.contracts@),
            grace == w0.params.contracts.lease_grace_cycles,
            b.world.wf(),
            b.tick == old(b).tick,
            b.cycle == old(b).cycle,
            b.events@ == start + evictions(leases@.take(k as int), grace),
            folded(w0, evictions(leases@.take(k as int), grace), b.world),
        decreases leases@.len() - k,
    {
        let l = leases[k];
        let ghost done = evictions(leases@.take(k as int), grace);
        proof {
            assert(leases@.take(k + 1).drop_last() =~= leases@.take(k as int));
            assert(leases@.take(k + 1).last() == l);
        }
        if l.missed_cycles > grace {
            evict(b, l, Ghost(w0), Ghost(done));
            proof {
                assert(evictions(leases@.take(k + 1), grace) == done + eviction(l));
                assert(b.events@ =~= start + (done + eviction(l)));
            }
        } else {
            assert(evictions(leases@.take(k + 1), grace) == done);
        }
        k = k + 1;
    }
    proof {
        assert(leases@.take(leases@.len() as int) =~= leases@);
    }
}

/// Whether a lease's term runs out at the end of `cycle`.
pub open spec fn runs_out(l: DwellingLease, cycle: int, ticks_per_cycle: int) -> bool {
    match l.term_cycles {
        Some(t) => cycle + 1 >= l.created_tick as int / ticks_per_cycle + t,
        None => false,
    }
}

/// The rent a lease's tenant owes at the cycle's end: paid where the tenant
/// has it (`paid`), missed where not; nothing where the rent is nothing.
pub open spec fn rent_part(l: DwellingLease, paid: bool) -> Seq<Event> {
    if l.rent.0 > 0 {
        if paid {
            seq![Event::RentPaid { contract: l.id, amount: l.rent }]
        } else {
            seq![Event::RentMissed { contract: l.id, owed: l.rent }]
        }
    } else {
        Seq::empty()
    }
}

/// Where a lease's term runs out: it ends and the dwelling is vacated.
pub open spec fn end_part(l: DwellingLease, cycle: int, ticks_per_cycle: int) -> Seq<Event> {
    if runs_out(l, cycle, ticks_per_cycle) {
        seq![Event::LeaseEnded { contract: l.id, evicted: false }, Event::DwellingOccupied { dwelling: l.dwelling, citizen: None }]
    } else {
        Seq::empty()
    }
}

/// What the cycle's end emits for a lease: its rent, then its end where the
/// term runs out.
pub open spec fn rent_step(l: DwellingLease, paid: bool, cycle: int, ticks_per_cycle: int) -> Seq<Event> {
    rent_part(l, paid) + end_part(l, cycle, ticks_per_cycle)
}

/// The row of contract `id`, if there is one.
pub open spec fn contract_row(w: World, id: ContractId) -> Option<Contract> {
    match find(w.contracts@, id.0) {
        Some(i) => Some(w.contracts@[i]),
        None => None,
    }
}

/// Replacing the row at `i` by one with the same id leaves every other id's row as it was.
pub proof fn lemma_other_rows_kept(o: World, n: World, i: int, x: Contract)
    requires
        o.wf(),
        0 <= i < o.contracts@.len(),
        x.id == o.contracts@[i].id,
        n.contracts@ == o.contracts@.update(i, x),
    ensures
        forall|id: ContractId| id != x.id ==> #[trigger] contract_row(n, id) == contract_row(o, id),
        contract_row(n, x.id) == Some(x),
{
    lemma_update_keeps_ids(o.contracts@, i, x);
    lemma_find_unique(o.contracts@, i);
    assert forall|id: ContractId| id != x.id implies #[trigger] contract_row(n, id) == contract_row(o, id) by {
        lemma_find(o.contracts@, id.0);
        if let Some(j) = find(o.contracts@, id.0) {
            assert(j != i);
        }
    }
}

/// A lease's events touch no other contract's row.
proof fn lemma_step_rows_kept(o: World, n: World, l: DwellingLease, e: Event)
    requires
        o.wf(),
        applied(o, n, e),
        match e {
            Event::RentPaid { contract, .. } => contract == l.id,
            Event::RentMissed { contract, .. } => contract == l.id,
            Event::LeaseEnded { contract, .. } => contract == l.id,
            Event::DwellingOccupied { .. } => true,
            _ => false,
        },
    ensures
        forall|id: ContractId| id != l.id ==> #[trigger] contract_row(n, id) == contract_row(o, id),
{
    match e {
        Event::RentPaid { contract, amount } => {
            let mid = choose|mid: World| crate::apply::paid_under_via(o, mid, n, contract, true, 0, amount);
            lemma_find(o.contracts@, contract.0);
            if let Some(i) = find(o.contracts@, contract.0) {
                let x = crate::apply::settled(o.contracts@[i], true, 0);
                lemma_other_rows_kept(o, mid, i, x);
                let m2 = choose|m2: World| crate::apply::moved_via(
                    mid,
                    m2,
                    n,
                    holder(o.contracts@[i].parties.1),
                    holder(o.contracts@[i].parties.0),
                    Asset::Money(amount),
                );
                assert(n.contracts == mid.contracts);
                assert forall|id: ContractId| id != l.id implies #[trigger] contract_row(n, id) == contract_row(o, id) by {
                    assert(contract_row(n, id) == contract_row(mid, id));
                }
            }
        },
        Event::RentMissed { contract, .. } => {
            lemma_find(o.contracts@, contract.0);
            if let Some(i) = find(o.contracts@, contract.0) {
                lemma_other_rows_kept(o, n, i, crate::apply::rent_missed(o.contracts@[i]));
            }
        },
        Event::LeaseEnded { contract, .. } => {
            lemma_find(o.contracts@, contract.0);
            if let Some(i) = find(o.contracts@, contract.0) {
                lemma_other_rows_kept(o, n, i, crate::apply::ended(o.contracts@[i]));
            }
        },
        Event::DwellingOccupied { dwelling, citizen } => {
            let (m1, m2) = choose|m1: World, m2: World| crate::apply::occupied_via(o, m1, m2, n, dwelling, citizen);
            assert(n.contracts == o.contracts);
        },
        _ => {},
    }
}

/// `l` is how the world's row of contract `l.id` reads as a dwelling lease.
pub open spec fn lease_in(w: World, l: DwellingLease) -> bool {
    contract_row(w, l.id) matches Some(k) && dwelling_lease(k) == Some(l)
}

/// Whether the tenant has the rent.
pub open spec fn can_pay(w: World, l: DwellingLease) -> bool {
    spec_money_of(w, l.tenant).0 >= l.rent.0
}

/// Charge a lease's rent.
fn charge_rent(b: &mut TickBuilder, l: DwellingLease)
    requires
        old(b).world.wf(),
        purses_bounded(old(b).world),
        lease_in(old(b).world, l),
        l.rent.0 > 0 ==> l.missed_cycles < u32::MAX,
    ensures
        final(b).world.wf(),
        purses_bounded(final(b).world),
        final(b).tick == old(b).tick,
        final(b).cycle == old(b).cycle,
        final(b).world.params == old(b).world.params,
        final(b).events@ == old(b).events@ + rent_part(l, can_pay(old(b).world, l)),
        folded(old(b).world, rent_part(l, can_pay(old(b).world, l)), final(b).world),
        forall|id: ContractId| id != l.id ==> #[trigger] contract_row(final(b).world, id) == contract_row(old(b).world, id),
{
    let ghost w0 = b.world;
    proof {
        lemma_folded_none(w0);
        lemma_find(w0.contracts@, l.id.0);
    }
    if l.rent.0 > 0 {
        let have = money_of(&b.world, l.tenant);
        let ghost i = find(w0.contracts@, l.id.0)->0;
        if have.0 >= l.rent.0 {
            proof {
                lemma_money_of_bounded(w0, l.tenant);
                lemma_payment_movable(w0, l.tenant, l.owner, l.rent);
            }
            let e = Event::RentPaid { contract: l.id, amount: l.rent };
            let ghost g = e;
            b.emit(e);
            proof {
                lemma_folded_step(w0, Seq::empty(), w0, b.world, g);
                assert(Seq::<Event>::empty().push(g) =~= rent_part(l, true));
                let mid = choose|mid: World| crate::apply::paid_under_via(w0, mid, b.world, l.id, true, 0, l.rent);
                let x = crate::apply::settled(w0.contracts@[i], true, 0);
                lemma_update_keeps_ids(w0.contracts@, i, x);
                assert(solvent(mid) && purses(mid) == purses(w0));
                assert(spec_money_of(mid, l.tenant) == spec_money_of(w0, l.tenant));
                lemma_payment_bounded(mid, b.world, l.tenant, l.owner, l.rent);
                lemma_step_rows_kept(w0, b.world, l, g);
            }
        } else {
            proof {
                assert forall|j: int|
                    0 <= j < w0.contracts@.len() && (#[trigger] w0.contracts@[j]).id == l.id implies match w0.contracts@[j].body {
                    ContractBody::Lease { missed_cycles, .. } => missed_cycles < u32::MAX,
                    _ => true,
                } by {
                    lemma_find_unique(w0.contracts@, j);
                }
            }
            let e = Event::RentMissed { contract: l.id, owed: l.rent };
            let ghost g = e;
            b.emit(e);
            proof {
                lemma_folded_step(w0, Seq::empty(), w0, b.world, g);
                assert(Seq::<Event>::empty().push(g) =~= rent_part(l, false));
                lemma_step_rows_kept(w0, b.world, l, g);
            }
        }
    } else {
        proof {
            assert(b.events@ + Seq::<Event>::empty() =~= b.events@);
        }
    }
}

/// End a lease whose term runs out.
fn close_out(b: &mut TickBuilder, l: DwellingLease)
    requires
        old(b).world.wf(),
        purses_bounded(old(b).world),
    ensures
        final(b).world.wf(),
        purses_bounded(final(b).world),
        final(b).tick == old(b).tick,
        final(b).cycle == old(b).cycle,
        final(b).world.params == old(b).world.params,
        final(b).events@ == old(b).events@ + end_part(
            l,
            old(b).cycle as int,
            old(b).world.params.time.ticks_per_cycle as int,
        ),
        folded(old(b).world, end_part(l, old(b).cycle as int, old(b).world.params.time.ticks_per_cycle as int), final(b).world),
        forall|id: ContractId| id != l.id ==> #[trigger] contract_row(final(b).world, id) == contract_row(old(b).world, id),
{
    let ghost w0 = b.world;
    proof {
        lemma_folded_none(w0);
    }
    let tpc = b.world.params.time.ticks_per_cycle;
    let ends = match l.term_cycles {
        Some(t) => b.cycle as u64 + 1 >= l.created_tick as u64 / tpc as u64 + t as u64,
        None => false,
    };
    if ends {
        let e1 = Event::LeaseEnded { contract: l.id, evicted: false };
        let e2 = Event::DwellingOccupied { dwelling: l.dwelling, citizen: None };
        let ghost g1 = e1;
        let ghost g2 = e2;
        b.emit(e1);
        let ghost mid = b.world;
        proof {
            lemma_folded_step(w0, Seq::empty(), w0, mid, g1);
            lemma_step_rows_kept(w0, mid, l, g1);
        }
        b.emit(e2);
        proof {
            lemma_folded_step(w0, Seq::empty().push(g1), mid, b.world, g2);
            lemma_step_rows_kept(mid, b.world, l, g2);
            lemma_vacate_bounded(mid, b.world, l.dwelling);
            assert(Seq::<Event>::empty().push(g1).push(g2) =~= end_part(
                l,
                old(b).cycle as int,
                old(b).world.params.time.ticks_per_cycle as int,
            ));
            assert(old(b).events@.push(g1).push(g2) =~= old(b).events@ + end_part(
                l,
                old(b).cycle as int,
                old(b).world.params.time.ticks_per_cycle as int,
            ));
        }
    } else {
        proof {
            assert(b.events@ + Seq::<Event>::empty() =~= b.events@);
        }
    }
}

/// Row `i` of `cs` reads as the lease `l`.
pub open spec fn lease_at(cs: Seq<Contract>, i: int, l: DwellingLease) -> bool {
    0 <= i < cs.len() && dwelling_lease(cs[i]) == Some(l)
}

/// Some row of `cs` reads as the lease `l`.
pub open spec fn from_row(cs: Seq<Contract>, l: DwellingLease) -> bool {
    exists|i: int| #[trigger] lease_at(cs, i, l)
}

/// Each dwelling lease comes from a row, and their ids increase.
proof fn lemma_dwelling_leases_rows(cs: Seq<Contract>)
    requires
        ids_increasing(cs),
    ensures
        forall|j: int| 0 <= j < dwelling_leases(cs).len() ==> #[trigger] from_row(cs, dwelling_leases(cs)[j]),
        forall|a: int, c: int|
            0 <= a < c < dwelling_leases(cs).len() ==> (#[trigger] dwelling_leases(cs)[a]).id.0 < (
            #[trigger] dwelling_leases(cs)[c]).id.0,
    decreases cs.len(),
{
    if cs.len() > 0 {
        let t = cs.drop_last();
        assert(ids_increasing(t)) by {
            assert forall|a: int, c: int| 0 <= a < c < t.len() implies t[a].key_of() < t[c].key_of() by {
                assert(t[a] == cs[a] && t[c] == cs[c]);
            }
        }
        lemma_dwelling_leases_rows(t);
        let ls = dwelling_leases(cs);
        let lt = dwelling_leases(t);
        assert forall|j: int| 0 <= j < lt.len() implies #[trigger] from_row(cs, lt[j]) by {
            assert(from_row(t, lt[j]));
            let i = choose|i: int| lease_at(t, i, lt[j]);
            assert(t[i] == cs[i]);
            assert(lease_at(cs, i, lt[j]));
        }
        assert forall|j: int| 0 <= j < lt.len() implies (#[trigger] lt[j]).id.0 < cs.last().id.0 by {
            assert(from_row(t, lt[j]));
            let i = choose|i: int| lease_at(t, i, lt[j]);
            assert(t[i] == cs[i]);
            assert(cs[i].key_of() < cs[cs.len() - 1].key_of());
        }
        match dwelling_lease(cs.last()) {
            Some(l) => {
                assert(ls == lt.push(l));
                assert(lease_at(cs, cs.len() - 1, l));
                assert forall|j: int| 0 <= j < ls.len() implies #[trigger] from_row(cs, ls[j]) by {
                    if j < lt.len() {
                        assert(ls[j] == lt[j]);
                        assert(from_row(cs, lt[j]));
                    } else {
                        assert(lease_at(cs, cs.len() - 1, ls[j]));
                    }
                }
                assert forall|a: int, c: int| 0 <= a < c < ls.len() implies (#[trigger] ls[a]).id.0 < (#[trigger] ls[c]).id.0 by {
                    assert(ls[a] == lt[a]);
                    if c < lt.len() {
                        assert(ls[c] == lt[c]);
                    }
                }
            },
            None => {
                assert(ls == lt);
            },
        }
    }
}

/// Every dwelling lease of a world reads as its row, and their ids increase.
proof fn lemma_leases_in(w: World)
    requires
        w.wf(),
    ensures
        forall|j: int| 0 <= j < dwelling_leases(w.contracts@).len() ==> lease_in(w, #[trigger] dwelling_leases(w.contracts@)[j]),
        forall|a: int, c: int|
            0 <= a < c < dwelling_leases(w.contracts@).len() ==> (#[trigger] dwelling_leases(w.contracts@)[a]).id.0 < (
            #[trigger] dwelling_leases(w.contracts@)[c]).id.0,
{
    let cs = w.contracts@;
    lemma_dwelling_leases_rows(cs);
    assert forall|j: int| 0 <= j < dwelling_leases(cs).len() implies lease_in(w, #[trigger] dwelling_leases(cs)[j]) by {
        assert(from_row(cs, dwelling_leases(cs)[j]));
        let i = choose|i: int| lease_at(cs, i, dwelling_leases(cs)[j]);
        lemma_find_unique(cs, i);
    }
}

/// The events the cycle's end emits for the leases `ls`, where `ws[k]` is
/// the world as lease `k` comes up.
pub open spec fn rent_events(ls: Seq<DwellingLease>, ws: Seq<World>, cycle: int, ticks_per_cycle: int) -> Seq<Event>
    decreases ls.len(),
{
    if ls.len() == 0 {
        Seq::empty()
    } else {
        rent_events(ls.drop_last(), ws, cycle, ticks_per_cycle) + rent_step(
            ls.last(),
            can_pay(ws[ls.len() - 1], ls.last()),
            cycle,
            ticks_per_cycle,
        )
    }
}

/// The events for `ls` read only the worlds its leases come up in.
proof fn lemma_rent_events_prefix(ls: Seq<DwellingLease>, ws: Seq<World>, vs: Seq<World>, cycle: int, tpc: int)
    requires
        forall|k: int| 0 <= k < ls.len() ==> ws[k] == vs[k],
    ensures
        rent_events(ls, ws, cycle, tpc) == rent_events(ls, vs, cycle, tpc),
    decreases ls.len(),
{
    if ls.len() > 0 {
        lemma_rent_events_prefix(ls.drop_last(), ws, vs, cycle, tpc);
    }
}

/// The leases `ls` settled one after another from `o` to `n`, emitting `es`,
/// with `ws` the world as each lease comes up and, last, `n`.
pub open spec fn rents_run_of(
    o: World,
    ls: Seq<DwellingLease>,
    ws: Seq<World>,
    es: Seq<Event>,
    n: World,
    cycle: int,
    ticks_per_cycle: int,
) -> bool {
    &&& ws.len() == ls.len() + 1
    &&& ws[0] == o
    &&& ws.last() == n
    &&& es == rent_events(ls, ws, cycle, ticks_per_cycle)
    &&& forall|k: int|
        0 <= k < ls.len() ==> folded(
            #[trigger] ws[k],
            rent_step(ls[k], can_pay(ws[k], ls[k]), cycle, ticks_per_cycle),
            ws[k + 1],
        )
}

/// The leases `ls` settled one after another from `o` to `n`, emitting `es`:
/// each lease's rent is paid where its tenant has it when it comes up.
pub open spec fn rents_run(o: World, ls: Seq<DwellingLease>, es: Seq<Event>, n: World, cycle: int, ticks_per_cycle: int) -> bool {
    exists|ws: Seq<World>| #[trigger] rents_run_of(o, ls, ws, es, n, cycle, ticks_per_cycle)
}

/// The leases the cycle's end settles: the world's active dwelling leases.
pub open spec fn rents_due(w: World) -> Seq<DwellingLease> {
    dwelling_leases(w.contracts@)
}

/// Every lease with rent can count one more missed rent.
pub open spec fn rents_countable(w: World) -> bool {
    forall|k: int|
        0 <= k < rents_due(w).len() ==> (#[trigger] rents_due(w)[k]).rent.0 > 0 ==> rents_due(w)[k].missed_cycles
            < u32::MAX
}

/// Settle one lease: charge its rent, then end it if its term runs out.
fn settle(b: &mut TickBuilder, l: DwellingLease)
    requires
        old(b).world.wf(),
        purses_bounded(old(b).world),
        lease_in(old(b).world, l),
        l.rent.0 > 0 ==> l.missed_cycles < u32::MAX,
    ensures
        final(b).world.wf(),
        purses_bounded(final(b).world),
        final(b).tick == old(b).tick,
        final(b).cycle == old(b).cycle,
        final(b).world.params == old(b).world.params,
        final(b).events@ == old(b).events@ + rent_step(
            l,
            can_pay(old(b).world, l),
            old(b).cycle as int,
            old(b).world.params.time.ticks_per_cycle as int,
        ),
        folded(
            old(b).world,
            rent_step(l, can_pay(old(b).world, l), old(b).cycle as int, old(b).world.params.time.ticks_per_cycle as int),
            final(b).world,
        ),
        forall|id: ContractId| id != l.id ==> #[trigger] contract_row(final(b).world, id) == contract_row(old(b).world, id),
{
    let ghost w0 = b.world;
    let ghost paid = can_pay(w0, l);
    let ghost cycle = b.cycle as int;
    let ghost tpc = b.world.params.time.ticks_per_cycle as int;
    charge_rent(b, l);
    let ghost mid = b.world;
    close_out(b, l);
    proof {
        lemma_folded_append(w0, rent_part(l, paid), mid, end_part(l, cycle, tpc), b.world);
        assert(old(b).events@ + rent_part(l, paid) + end_part(l, cycle, tpc) =~= old(b).events@ + rent_step(l, paid, cycle, tpc));
        assert forall|id: ContractId| id != l.id implies #[trigger] contract_row(b.world, id) == contract_row(w0, id) by {
            assert(contract_row(mid, id) == contract_row(w0, id));
        }
    }
}

/// Step 8d: charge each active dwelling lease its rent, paid where the
/// tenant has it and missed where not, and end each lease whose term runs
/// out, vacating its dwelling.
pub fn cycle_end_8d_rent(b: &mut TickBuilder)
    requires
        old(b).world.wf(),
        purses_bounded(old(b).world),
        rents_countable(old(b).world),
    ensures
        final(b).world.wf(),
        purses_bounded(final(b).world),
        final(b).tick == old(b).tick,
        final(b).cycle == old(b).cycle,
        final(b).events@.len() >= old(b).events@.len(),
        final(b).events@.take(old(b).events@.len() as int) == old(b).events@,
        rents_run(
            old(b).world,
            rents_due(old(b).world),
            final(b).events@.skip(old(b).events@.len() as int),
            final(b).world,
            old(b).cycle as int,
            old(b).world.params.time.ticks_per_cycle as int,
        ),
        folded(old(b).world, final(b).events@.skip(old(b).events@.len() as int), final(b).world),
{
    let ghost w0 = b.world;
    let ghost start = b.events@;
    let ghost cycle = b.cycle as int;
    let ghost tpc = b.world.params.time.ticks_per_cycle as int;
    let leases = active_dwelling_leases(&b.world);
    let ghost mut ws: Seq<World> = seq![w0];
    proof {
        lemma_leases_in(w0);
        lemma_folded_none(w0);
        assert(leases@.take(0) =~= Seq::<DwellingLease>::empty());
        assert(start + Seq::<Event>::empty() =~= start);
    }
    let mut k: usize = 0;
    while k < leases.len()
        invariant
            k <= leases@.len(),
            leases@ == rents_due(w0),
            rents_countable(w0),
            forall|j: int| 0 <= j < leases@.len() ==> lease_in(w0, #[trigger] leases@[j]),
            forall|a: int, c: int| 0 <= a < c < leases@.len() ==> (#[trigger] leases@[a]).id.0 < (#[trigger] leases@[c]).id.0,
            forall|j: int| k <= j < leases@.len() ==> contract_row(b.world, (#[trigger] leases@[j]).id) == contract_row(w0, leases@[j].id),
            b.world.wf(),
            purses_bounded(b.world),
            b.tick == old(b).tick,
            b.cycle == old(b).cycle,
            cycle == b.cycle as int,
            b.world.params == w0.params,
            tpc == w0.params.time.ticks_per_cycle as int,
            ws.len() == k + 1,
            ws[0] == w0,
            ws.last() == b.world,
            forall|j: int| 0 <= j < k ==> folded(#[trigger] ws[j], rent_step(leases@[j], can_pay(ws[j], leases@[j]), cycle, tpc), ws[j + 1]),
            b.events@ == start + rent_events(leases@.take(k as int), ws, cycle, tpc),
            folded(w0, rent_events(leases@.take(k as int), ws, cycle, tpc), b.world),
        decreases leases@.len() - k,
    {
        let l = leases[k];
        let ghost before = b.world;
        let ghost done = rent_events(leases@.take(k as int), ws, cycle, tpc);
        proof {
            assert(lease_in(w0, leases@[k as int]));
            assert(contract_row(b.world, leases@[k as int].id) == contract_row(w0, leases@[k as int].id));
            assert(rents_due(w0)[k as int] == l);
        }
        settle(b, l);
        let ghost step = rent_step(l, can_pay(before, l), cycle, tpc);
        proof {
            let ws2 = ws.push(b.world);
            lemma_folded_append(w0, done, before, step, b.world);
            assert(leases@.take(k + 1).drop_last() =~= leases@.take(k as int));
            assert(leases@.take(k + 1).last() == l);
            lemma_rent_events_prefix(leases@.take(k as int), ws, ws2, cycle, tpc);
            assert(ws2[k as int] == before);
            assert(rent_events(leases@.take(k + 1), ws2, cycle, tpc) == done + step);
            assert(b.events@ =~= start + (done + step));
            assert forall|j: int| 0 <= j < k + 1 implies folded(#[trigger] ws2[j], rent_step(leases@[j], can_pay(ws2[j], leases@[j]), cycle, tpc), ws2[j + 1]) by {
                if j < k {
                    assert(ws2[j] == ws[j] && ws2[j + 1] == ws[j + 1]);
                }
            }
            assert forall|j: int| k + 1 <= j < leases@.len() implies contract_row(b.world, (#[trigger] leases@[j]).id) == contract_row(w0, leases@[j].id) by {
                assert(leases@[k as int].id.0 < leases@[j].id.0);
                assert(contract_row(b.world, leases@[j].id) == contract_row(before, leases@[j].id));
            }
            ws = ws2;
        }
        k = k + 1;
    }
    proof {
        assert(leases@.take(leases@.len() as int) =~= leases@);
        assert(b.events@.take(start.len() as int) =~= start);
        assert(b.events@.skip(start.len() as int) =~= rent_events(leases@, ws, cycle, tpc));
        assert(rents_run_of(w0, leases@, ws, b.events@.skip(start.len() as int), b.world, cycle, tpc));
    }
}

/// The dwelling `id`, by position.
pub open spec fn spec_dwelling(w: World, id: DwellingId) -> Result<int, RejectCode> {
    match find(w.dwellings@, id.0) {
        None => Err(RejectCode::UnknownDwelling),
        Some(i) => Ok(i),
    }
}

/// The dwelling `id`.
fn dwelling(world: &World, id: DwellingId) -> (r: Result<crate::world::Dwelling, Reject>)
    ensures
        match (r, spec_dwelling(*world, id)) {
            (Ok(d), Ok(i)) => d == world.dwellings@[i],
            (Err(e), Err(code)) => e.code == code,
            _ => false,
        },
{
    match index_of(&world.dwellings, id.0) {
        Some(i) => Ok(world.dwellings[i]),
        None => Err(Reject::new(RejectCode::UnknownDwelling, { let mut m = say("no dwelling "); put_dwelling(&mut m, id); m })),
    }
}

/// What `MoveIn` emits: an unhoused citizen occupies an empty dwelling they own.
pub open spec fn spec_move_in(w: World, actor: Actor, id: DwellingId) -> Result<Seq<Event>, RejectCode> {
    match spec_acting_citizen(w, actor) {
        Err(c) => Err(c),
        Ok(ci) => match spec_dwelling(w, id) {
            Err(c) => Err(c),
            Ok(di) => {
                let c = w.citizens@[ci];
                let d = w.dwellings@[di];
                if d.owner != Owner::Citizen(c.id) {
                    Err(RejectCode::NotOwner)
                } else if d.occupant is Some || c.household.dwelling is Some {
                    Err(RejectCode::AlreadyExists)
                } else {
                    Ok(seq![Event::DwellingOccupied { dwelling: id, citizen: Some(c.id) }])
                }
            },
        },
    }
}

/// `MoveIn`: a citizen occupies a dwelling they own.
pub fn move_in<C>(world: &World, envelope: &Envelope<C>, id: DwellingId) -> (r: Result<Vec<Event>, Reject>)
    ensures
        match (r, spec_move_in(*world, envelope.actor, id)) {
            (Ok(v), Ok(s)) => v@ == s,
            (Err(e), Err(code)) => e.code == code,
            _ => false,
        },
{
    let citizen = acting_citizen(world, envelope)?;
    let d = dwelling(world, id)?;
    if d.owner != Owner::Citizen(citizen.id) {
        return Err(Reject::new(RejectCode::NotOwner, { let mut m = String::new(); put_citizen(&mut m, citizen.id); put(&mut m, " does not own "); put_dwelling(&mut m, id); m }));
    }
    if d.occupant.is_some() || citizen.household.dwelling.is_some() {
        return Err(Reject::new(RejectCode::AlreadyExists, "occupied, or already housed".to_string()));
    }
    let mut v: Vec<Event> = Vec::new();
    v.push(Event::DwellingOccupied { dwelling: id, citizen: Some(citizen.id) });
    proof {
        assert(v@ =~= seq![Event::DwellingOccupied { dwelling: id, citizen: Some(citizen.id) }]);
    }
    Ok(v)
}

/// What `MoveOut` emits: the owner-occupier (not a tenant) leaves.
pub open spec fn spec_move_out(w: World, actor: Actor, id: DwellingId) -> Result<Seq<Event>, RejectCode> {
    match spec_acting_citizen(w, actor) {
        Err(c) => Err(c),
        Ok(ci) => match spec_dwelling(w, id) {
            Err(c) => Err(c),
            Ok(di) => {
                let d = w.dwellings@[di];
                if d.occupant != Some(w.citizens@[ci].id) || d.lease is Some {
                    Err(RejectCode::NotParty)
                } else {
                    Ok(seq![Event::DwellingOccupied { dwelling: id, citizen: None }])
                }
            },
        },
    }
}

/// `MoveOut`: an owner-occupier leaves their own dwelling.
pub fn move_out<C>(world: &World, envelope: &Envelope<C>, id: DwellingId) -> (r: Result<Vec<Event>, Reject>)
    ensures
        match (r, spec_move_out(*world, envelope.actor, id)) {
            (Ok(v), Ok(s)) => v@ == s,
            (Err(e), Err(code)) => e.code == code,
            _ => false,
        },
{
    let citizen = acting_citizen(world, envelope)?;
    let d = dwelling(world, id)?;
    if d.occupant != Some(citizen.id) || d.lease.is_some() {
        return Err(Reject::new(RejectCode::NotParty, "not the owner-occupant (tenants end their lease)".to_string()));
    }
    let mut v: Vec<Event> = Vec::new();
    v.push(Event::DwellingOccupied { dwelling: id, citizen: None });
    proof {
        assert(v@ =~= seq![Event::DwellingOccupied { dwelling: id, citizen: None }]);
    }
    Ok(v)
}

/// The lease `id`, by position, where it is an open lease of a dwelling.
pub open spec fn spec_lease(w: World, id: ContractId) -> Result<int, RejectCode> {
    match find(w.contracts@, id.0) {
        None => Err(RejectCode::UnknownContract),
        Some(i) => if w.contracts@[i].body matches ContractBody::Lease { asset: LeaseAsset::Dwelling(_), .. }
            && w.contracts@[i].status != ContractStatus::Ended {
            Ok(i)
        } else {
            Err(RejectCode::UnknownContract)
        },
    }
}

/// The lease, if it is an open lease of a dwelling, with the dwelling and the rent.
pub fn lease(world: &World, id: ContractId) -> (r: Result<(Contract, DwellingId, Money), Reject>)
    ensures
        match (r, spec_lease(*world, id)) {
            (Ok((k, d, rent)), Ok(i)) => {
                &&& k == world.contracts@[i]
                &&& k.body matches ContractBody::Lease { asset, rent_per_cycle, .. } && asset == LeaseAsset::Dwelling(d)
                    && rent_per_cycle == rent
            },
            (Err(e), Err(code)) => e.code == code,
            _ => false,
        },
{
    let i = match index_of(&world.contracts, id.0) {
        Some(i) => i,
        None => {
            return Err(Reject::new(RejectCode::UnknownContract, { let mut m = say("no contract "); put_contract(&mut m, id); m }));
        },
    };
    let k = world.contracts[i];
    match k.body {
        ContractBody::Lease { asset: LeaseAsset::Dwelling(d), rent_per_cycle, .. } => {
            if k.status != ContractStatus::Ended {
                return Ok((k, d, rent_per_cycle));
            }
        },
        _ => {},
    }
    Err(Reject::new(RejectCode::UnknownContract, { let mut m = say("contract "); put_contract(&mut m, id); put(&mut m, " is not an open lease"); m }))
}

/// What `AcceptLease` answers: an unhoused citizen, acting for no org,
/// takes a dwelling on offer from someone else, unless they are destitute
/// and the lease is long (open-ended or beyond the long-contract threshold);
/// the lease is made and they move in.
pub open spec fn spec_accept_lease(w: World, actor: Actor, on_behalf_of: Option<crate::ids::OrgId>, id: crate::ids::OfferId) -> Result<Seq<Event>, RejectCode> {
    match spec_acting_citizen(w, actor) {
        Err(e) => Err(e),
        Ok(ci) => {
            let c = w.citizens@[ci];
            if on_behalf_of is Some {
                Err(RejectCode::NotAuthorized)
            } else {
                match find(w.offers@, id.0) {
                    None => Err(RejectCode::UnknownOffer),
                    Some(fi) => {
                        let f = w.offers@[fi];
                        match f.body {
                            OfferBody::Lease { asset: LeaseAsset::Dwelling(did), rent_per_cycle, term_cycles } => {
                                let long = match term_cycles {
                                    Some(t) => t > w.params.contracts.long_contract_cycles,
                                    None => true,
                                };
                                if c.household.dwelling is Some {
                                    Err(RejectCode::AlreadyExists)
                                } else if f.by == Party::Citizen(c.id) {
                                    Err(RejectCode::SelfDeal)
                                } else if c.flags.options_narrowed && long {
                                    Err(RejectCode::OptionsNarrowed)
                                } else {
                                    Ok(
                                        seq![
                                            Event::LeaseAccepted {
                                                contract: w.next.contract,
                                                owner: f.by,
                                                tenant: Party::Citizen(c.id),
                                                asset: LeaseAsset::Dwelling(did),
                                                rent_per_cycle,
                                                term_cycles,
                                            },
                                            Event::DwellingOccupied { dwelling: did, citizen: Some(c.id) },
                                        ],
                                    )
                                }
                            },
                            _ => Err(RejectCode::UnknownOffer),
                        }
                    },
                }
            }
        },
    }
}

/// `AcceptLease`: an unhoused citizen takes the dwelling.
pub fn accept_lease<C>(world: &World, envelope: &Envelope<C>, id: crate::ids::OfferId) -> (r: Result<Vec<Event>, Reject>)
    ensures
        match (r, spec_accept_lease(*world, envelope.actor, envelope.on_behalf_of, id)) {
            (Ok(v), Ok(s)) => v@ == s,
            (Err(e), Err(code)) => e.code == code,
            _ => false,
        },
{
    let citizen = acting_citizen(world, envelope)?;
    if envelope.on_behalf_of.is_some() {
        return Err(Reject::new(RejectCode::NotAuthorized, say("orgs do not rent dwellings")));
    }
    let fi = match index_of(&world.offers, id.0) {
        Some(fi) => fi,
        None => {
            let mut m = say("no offer ");
            crate::message::put_offer(&mut m, id);
            return Err(Reject::new(RejectCode::UnknownOffer, m));
        },
    };
    let f = world.offers[fi];
    let (did, rent_per_cycle, term_cycles) = match f.body {
        OfferBody::Lease { asset: LeaseAsset::Dwelling(did), rent_per_cycle, term_cycles } => (did, rent_per_cycle, term_cycles),
        _ => {
            let mut m = say("offer ");
            crate::message::put_offer(&mut m, id);
            put(&mut m, " is not a lease");
            return Err(Reject::new(RejectCode::UnknownOffer, m));
        },
    };
    if citizen.household.dwelling.is_some() {
        let mut m = String::new();
        put_citizen(&mut m, citizen.id);
        put(&mut m, " is already housed");
        return Err(Reject::new(RejectCode::AlreadyExists, m));
    }
    if f.by == Party::Citizen(citizen.id) {
        return Err(Reject::new(RejectCode::SelfDeal, say("cannot rent from yourself")));
    }
    let long = match term_cycles {
        Some(t) => t > world.params.contracts.long_contract_cycles,
        None => true,
    };
    if citizen.flags.options_narrowed && long {
        return Err(Reject::new(RejectCode::OptionsNarrowed, say("a destitute citizen cannot sign a long lease")));
    }
    let mut v: Vec<Event> = Vec::new();
    v.push(
        Event::LeaseAccepted {
            contract: world.next.contract,
            owner: f.by,
            tenant: Party::Citizen(citizen.id),
            asset: LeaseAsset::Dwelling(did),
            rent_per_cycle,
            term_cycles,
        },
    );
    v.push(Event::DwellingOccupied { dwelling: did, citizen: Some(citizen.id) });
    proof {
        let s = spec_accept_lease(*world, envelope.actor, envelope.on_behalf_of, id);
        assert(v@ =~= s->Ok_0);
    }
    Ok(v)
}

} // verus!
