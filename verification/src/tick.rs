//! A tick in progress: the world with each emitted event folded in, and
//! what keeps the payments a tick makes between citizens and orgs in range.
use crate::apply::{admissible, applied, apply, holder, spec_money_of};
use crate::conservation::{lemma_citizen_row, lemma_credit_books, lemma_debit_books, lemma_update_wf_debit, solvent};
use crate::event::Event;
use crate::ids::{Cycle, DwellingId, Tick};
use crate::ledger::{balance_of, citizens_money, money_held, orgs_money, treasury_of, Asset, Party};
use crate::money::Money;
use crate::sum::{lemma_sum_element_le, lemma_sum_nonneg_terms};
use crate::table::{find, lemma_find};
use crate::world::World;
use vstd::prelude::*;

verus! {

/// `n` is what applying `e` to `o` makes (kept folded away from the
/// reasoning about runs of events).
#[verifier::opaque]
pub open spec fn stepped(o: World, n: World, e: Event) -> bool {
    applied(o, n, e)
}

/// `ws` are the worlds from `o` to `n` as the events `es` are folded in,
/// one after another.
pub open spec fn run_of(o: World, es: Seq<Event>, ws: Seq<World>, n: World) -> bool {
    &&& ws.len() == es.len() + 1
    &&& ws[0] == o
    &&& ws.last() == n
    &&& forall|i: int| 0 <= i < es.len() ==> stepped(#[trigger] ws[i], ws[i + 1], es[i])
}

/// `n` is `o` with the events `es` folded in, one after another.
pub open spec fn folded(o: World, es: Seq<Event>, n: World) -> bool {
    exists|ws: Seq<World>| #[trigger] run_of(o, es, ws, n)
}

/// Folding no events leaves the world as it is.
pub proof fn lemma_folded_none(o: World)
    ensures
        folded(o, Seq::empty(), o),
{
    assert(run_of(o, Seq::empty(), seq![o], o));
}

/// Folding one more event after a run of them.
pub proof fn lemma_folded_step(o: World, es: Seq<Event>, mid: World, n: World, e: Event)
    requires
        folded(o, es, mid),
        applied(mid, n, e),
    ensures
        folded(o, es.push(e), n),
{
    let ws = choose|ws: Seq<World>| run_of(o, es, ws, mid);
    let ws2 = ws.push(n);
    assert(stepped(mid, n, e)) by {
        reveal(stepped);
    }
    assert forall|i: int| 0 <= i < es.push(e).len() implies stepped(#[trigger] ws2[i], ws2[i + 1], es.push(e)[i]) by {
        if i < es.len() {
            assert(ws2[i] == ws[i] && ws2[i + 1] == ws[i + 1]);
        }
    }
    assert(run_of(o, es.push(e), ws2, n));
}

/// A tick being built: the world as it stands, the tick and its cycle, and
/// the events emitted so far.
pub struct TickBuilder {
    pub world: World,
    pub tick: Tick,
    pub cycle: Cycle,
    pub events: Vec<Event>,
}

impl TickBuilder {
    /// Start building a tick on `world`.
    pub fn new(world: World, tick: Tick) -> (b: TickBuilder)
        requires
            world.wf(),
        ensures
            b.world == world,
            b.tick == tick,
            b.cycle == world.spec_cycle_of(tick),
            b.events@ == Seq::<Event>::empty(),
    {
        let cycle = world.cycle_of(tick);
        TickBuilder { world, tick, cycle, events: Vec::new() }
    }

    /// Fold `event` into the world and record it.
    pub fn emit(&mut self, event: Event)
        requires
            old(self).world.wf(),
            admissible(old(self).world, event),
        ensures
            final(self).world.wf(),
            applied(old(self).world, final(self).world, event),
            final(self).events@ == old(self).events@.push(event),
            final(self).tick == old(self).tick,
            final(self).cycle == old(self).cycle,
    {
        apply(&mut self.world, &event);
        self.events.push(event);
    }
}

/// Folding one run of events after another.
pub proof fn lemma_folded_append(o: World, a: Seq<Event>, mid: World, b: Seq<Event>, n: World)
    requires
        folded(o, a, mid),
        folded(mid, b, n),
    ensures
        folded(o, a + b, n),
{
    let w1 = choose|ws: Seq<World>| run_of(o, a, ws, mid);
    let w2 = choose|ws: Seq<World>| run_of(mid, b, ws, n);
    let ws = w1 + w2.skip(1);
    let es = a + b;
    assert forall|i: int| 0 <= i < es.len() implies stepped(#[trigger] ws[i], ws[i + 1], es[i]) by {
        if i < a.len() {
            assert(ws[i] == w1[i]);
            assert(ws[i + 1] == w1[i + 1]);
            assert(es[i] == a[i]);
        } else {
            let j = i - a.len();
            assert(ws[i] == w2[j]);
            assert(ws[i + 1] == w2[j + 1]);
            assert(es[i] == b[j]);
        }
    }
    assert(ws.last() == n);
    assert(run_of(o, es, ws, n));
}

/// Money that citizens and orgs hold between them.
pub open spec fn purses(w: World) -> int {
    citizens_money(w.citizens@) + orgs_money(w.orgs@)
}

/// No citizen or org is in debt, and what they hold between them is at most
/// half the range of an amount: no payment between them can overflow.
pub open spec fn purses_bounded(w: World) -> bool {
    &&& solvent(w)
    &&& 2 * purses(w) <= i64::MAX
}

/// Whether a party exists in the world.
pub open spec fn party_exists(w: World, p: Party) -> bool {
    match p {
        Party::Citizen(id) => find(w.citizens@, id.0) is Some,
        Party::Org(id) => find(w.orgs@, id.0) is Some,
    }
}

/// A party's money is part of what citizens and orgs hold.
pub proof fn lemma_money_of_bounded(w: World, p: Party)
    requires
        solvent(w),
    ensures
        0 <= spec_money_of(w, p).0 <= purses(w),
{
    assert forall|k: int| 0 <= k < w.citizens@.len() implies 0 <= #[trigger] balance_of()(w.citizens@[k]) by {}
    assert forall|k: int| 0 <= k < w.orgs@.len() implies 0 <= #[trigger] treasury_of()(w.orgs@[k]) by {}
    lemma_sum_nonneg_terms(w.citizens@, balance_of());
    lemma_sum_nonneg_terms(w.orgs@, treasury_of());
    match p {
        Party::Citizen(id) => {
            lemma_find(w.citizens@, id.0);
            if let Some(i) = find(w.citizens@, id.0) {
                lemma_sum_element_le(w.citizens@, balance_of(), i);
            }
        },
        Party::Org(id) => {
            lemma_find(w.orgs@, id.0);
            if let Some(i) = find(w.orgs@, id.0) {
                lemma_sum_element_le(w.orgs@, treasury_of(), i);
            }
        },
    }
}

/// A payment that the payer can cover, between citizens and orgs of a
/// bounded world, can be made: it stays within every counter's range.
pub proof fn lemma_payment_movable(w: World, from: Party, to: Party, a: Money)
    requires
        w.wf(),
        purses_bounded(w),
        0 <= a.0 <= spec_money_of(w, from).0,
    ensures
        crate::apply::movable(w, holder(from), holder(to), Asset::Money(a)),
{
    lemma_money_of_bounded(w, from);
    lemma_money_of_bounded(w, to);
    match from {
        Party::Citizen(id) => {
            lemma_find(w.citizens@, id.0);
            assert forall|i: int| 0 <= i < w.citizens@.len() && #[trigger] w.citizens@[i].id == id implies crate::apply::fits_i64(
                w.citizens@[i].household.balance.0 - a.0,
            ) by {
                crate::table::lemma_find_unique(w.citizens@, i);
            }
        },
        Party::Org(id) => {
            lemma_find(w.orgs@, id.0);
            assert forall|i: int| 0 <= i < w.orgs@.len() && #[trigger] w.orgs@[i].id == id implies crate::apply::fits_i64(
                w.orgs@[i].treasury.0 - a.0,
            ) by {
                crate::table::lemma_find_unique(w.orgs@, i);
            }
        },
    }
    match to {
        Party::Citizen(id) => {
            lemma_find(w.citizens@, id.0);
            assert forall|i: int| 0 <= i < w.citizens@.len() && #[trigger] w.citizens@[i].id == id implies crate::apply::fits_i64(
                w.citizens@[i].household.balance.0 + a.0,
            ) by {
                crate::table::lemma_find_unique(w.citizens@, i);
            }
        },
        Party::Org(id) => {
            lemma_find(w.orgs@, id.0);
            assert forall|i: int| 0 <= i < w.orgs@.len() && #[trigger] w.orgs@[i].id == id implies crate::apply::fits_i64(
                w.orgs@[i].treasury.0 + a.0,
            ) by {
                crate::table::lemma_find_unique(w.orgs@, i);
            }
        },
    }
}

/// A payment the payer can cover keeps a bounded world bounded.
pub proof fn lemma_payment_bounded(o: World, n: World, from: Party, to: Party, a: Money)
    requires
        o.wf(),
        purses_bounded(o),
        0 <= a.0 <= spec_money_of(o, from).0,
        crate::apply::moved(o, n, holder(from), holder(to), Asset::Money(a)),
    ensures
        purses_bounded(n),
{
    let m = Asset::Money(a);
    lemma_payment_movable(o, from, to, a);
    let mid = choose|mid: World| crate::apply::moved_via(o, mid, n, holder(from), holder(to), m);
    match from {
        Party::Citizen(id) => {
            lemma_find(o.citizens@, id.0);
        },
        Party::Org(id) => {
            lemma_find(o.orgs@, id.0);
        },
    }
    assert(crate::conservation::covers(o, holder(from), m));
    lemma_debit_books(o, mid, holder(from), m);
    lemma_update_wf_debit(o, mid, holder(from), m);
    crate::apply::lemma_creditable_after_debit(o, mid, holder(from), holder(to), m);
    lemma_credit_books(mid, n, holder(to), m);
    assert(money_held(mid) - purses(mid) == money_held(o) - purses(o));
    assert(money_held(n) - purses(n) == money_held(mid) - purses(mid));
}

/// Vacating a dwelling keeps a bounded world bounded: no money moves.
pub proof fn lemma_vacate_bounded(o: World, n: World, d: DwellingId)
    requires
        purses_bounded(o),
        applied(o, n, Event::DwellingOccupied { dwelling: d, citizen: None }),
    ensures
        purses_bounded(n),
{
    let (m1, m2) = choose|m1: World, m2: World| crate::apply::occupied_via(o, m1, m2, n, d, None);
    if let Some(p) = crate::apply::occupant_of(o, d) {
        lemma_find(o.citizens@, p.0);
        if let Some(i) = find(o.citizens@, p.0) {
            lemma_citizen_row(o, m1, i, crate::apply::with_home(o.citizens@[i], None));
        }
    }
    assert(money_held(m1) - purses(m1) == money_held(o) - purses(o));
}

} // verus!
