//! Standing plans: what a citizen's plan bids when they are away.
use crate::command::Envelope;
use crate::event::{Actor, Event};
use crate::ids::{CitizenId, Tick};
use crate::kinds::ClientKind;
use crate::ledger::Party;
use crate::market::{book_of, depth, level_of, levels_fit, rests_on};
use crate::money::Money;
use crate::world::{Instrument, Order, Side, World};
use vstd::prelude::*;

verus! {

/// Integer division rounding toward zero, as Rust divides.
pub open spec fn div_toward_zero(a: int, b: int) -> int {
    if a >= 0 {
        a / b
    } else {
        -((-a) / b)
    }
}

/// The plan's default ceiling: the last price plus a quarter of it, rounded
/// to the cent (`last + (last + 2) / 4`).
pub open spec fn spec_default_max_price(last: Money) -> int {
    last.0 + div_toward_zero(last.0 + 2, 4)
}

/// The default ceiling is the last price and a quarter more: for a price
/// that is not negative, at least the last price, and four times it within a
/// cent or two of five times the last price.
pub proof fn lemma_default_ceiling(last: Money)
    requires
        last.0 >= 0,
    ensures
        spec_default_max_price(last) >= last.0,
        5 * last.0 - 1 <= 4 * spec_default_max_price(last) <= 5 * last.0 + 2,
{
    let a = last.0 + 2;
    vstd::arithmetic::div_mod::lemma_fundamental_div_mod(a as int, 4);
    assert(a / 4 >= 0);
}

/// `last × 1.25`, rounded to the cent.
pub fn default_max_price(last: Money) -> (m: Money)
    requires
        i64::MIN <= spec_default_max_price(last) <= i64::MAX,
        last.0 <= i64::MAX - 2,
    ensures
        m.0 == spec_default_max_price(last),
        last.0 >= 0 ==> m.0 >= last.0 && 5 * last.0 - 1 <= 4 * m.0 <= 5 * last.0 + 2,
{
    proof {
        if last.0 >= 0 {
            lemma_default_ceiling(last);
        }
    }
    let a = last.0 + 2;
    let q: i64 = if a >= 0 {
        a / 4
    } else {
        -((-(a as i128)) / 4) as i64
    };
    Money(last.0 + q)
}

/// Whether `p` is the lowest price an ask rests at among `os`.
pub open spec fn lowest_ask(os: Seq<Order>, p: int) -> bool {
    &&& exists|j: int| 0 <= j < os.len() && rests_on(#[trigger] os[j], Side::Ask) && os[j].limit_price.0 == p
    &&& forall|k: int| 0 <= k < os.len() && rests_on(#[trigger] os[k], Side::Ask) ==> p <= os[k].limit_price.0
}

/// Whether any ask rests among `os`.
pub open spec fn asks_rest(os: Seq<Order>) -> bool {
    exists|j: int| 0 <= j < os.len() && rests_on(#[trigger] os[j], Side::Ask)
}

/// The smaller of two amounts.
pub open spec fn min_of(a: int, b: int) -> int {
    if a <= b {
        a
    } else {
        b
    }
}

/// The price a plan bid is placed at: the best resting ask when one rests
/// (capped at `limit`), else the last price (capped). Bidding at `limit`
/// itself would let every incoming ask fill at the bidder's ceiling and
/// ratchet the last price upward each tick.
pub fn bid_price(world: &World, instrument: Instrument, last: Money, limit: Money) -> (r: Money)
    requires
        book_of(*world, instrument) matches Some(b) ==> levels_fit(b.orders@, Side::Ask),
    ensures
        match book_of(*world, instrument) {
            Some(b) => if asks_rest(b.orders@) {
                exists|p: int| lowest_ask(b.orders@, p) && r.0 == min_of(p, limit.0 as int)
            } else {
                r.0 == min_of(last.0 as int, limit.0 as int)
            },
            None => r.0 == min_of(last.0 as int, limit.0 as int),
        },
{
    let levels = depth(world, instrument, Side::Ask);
    if levels.len() > 0 {
        let a = levels[0].0;
        let ghost b = book_of(*world, instrument)->Some_0;
        let ghost os = b.orders@;
        proof {
            assert(level_of(os, Side::Ask, levels@[0].0));
            let j = choose|j: int| 0 <= j < os.len() && rests_on(#[trigger] os[j], Side::Ask) && os[j].limit_price == a;
            assert(rests_on(os[j], Side::Ask));
            assert(asks_rest(os));
            assert forall|k: int| 0 <= k < os.len() && rests_on(#[trigger] os[k], Side::Ask) implies a.0 <= os[k].limit_price.0 by {
                let i = choose|i: int| 0 <= i < levels@.len() && (#[trigger] levels@[i]).0 == os[k].limit_price;
                if i > 0 {
                    assert(levels@[0].0.0 < levels@[i].0.0);
                }
            }
            assert(lowest_ask(os, a.0 as int));
        }
        let r = if a.0 <= limit.0 {
            a
        } else {
            limit
        };
        proof {
            assert(lowest_ask(os, a.0 as int) && r.0 == min_of(a.0 as int, limit.0 as int));
        }
        r
    } else {
        proof {
            if let Some(b) = book_of(*world, instrument) {
                let os = b.orders@;
                assert forall|j: int| 0 <= j < os.len() implies !rests_on(#[trigger] os[j], Side::Ask) by {
                    if rests_on(os[j], Side::Ask) {
                        let i = choose|i: int| 0 <= i < levels@.len() && (#[trigger] levels@[i]).0 == os[j].limit_price;
                    }
                }
            }
        }
        if last.0 <= limit.0 {
            last
        } else {
            limit
        }
    }
}

/// The envelope a standing plan's command travels in: the citizen, through
/// the plan's client, at this tick.
pub fn plan_envelope<C>(citizen: CitizenId, command: C, tick: Tick) -> (e: Envelope<C>)
    ensures
        e.actor == Actor::Citizen(citizen),
        e.on_behalf_of is None,
        e.client_kind == ClientKind::Plan,
        e.received_at_tick == tick,
        e.command == command,
{
    Envelope { actor: Actor::Citizen(citizen), on_behalf_of: None, client_kind: ClientKind::Plan, received_at_tick: tick, command }
}

/// Whether an event is about citizen `id`: it names them as its citizen, as
/// a party to a transfer, as a founder or manager, as an occupant, or as the
/// party ending a contract.
pub open spec fn spec_touches(e: Event, id: CitizenId) -> bool {
    match e {
        Event::CitizenJoined { citizen, .. } => citizen == id,
        Event::CitizenSeen { citizen, .. } => citizen == id,
        Event::CitizenDormant { citizen } => citizen == id,
        Event::CitizenReturned { citizen } => citizen == id,
        Event::HouseholderJoined { citizen, .. } => citizen == id,
        Event::Assigned { citizen, .. } => citizen == id,
        Event::Unassigned { citizen, .. } => citizen == id,
        Event::DividendPaid { citizen, .. } => citizen == id,
        Event::Paid { citizen, .. } => citizen == id,
        Event::PaymentMissed { citizen, .. } => citizen == id,
        Event::LaborSet { citizen, .. } => citizen == id,
        Event::LeaseAccepted { tenant, .. } => tenant == Party::Citizen(id),
        Event::EmploymentAccepted { citizen, .. } => citizen == id,
        Event::HardshipBegan { citizen, .. } => citizen == id,
        Event::HardshipEnded { citizen, .. } => citizen == id,
        Event::DestitutionBegan { citizen, .. } => citizen == id,
        Event::DestitutionEnded { citizen, .. } => citizen == id,
        Event::Transferred { from, to, .. } => from == Party::Citizen(id) || to == Party::Citizen(id),
        Event::WantedPosted { by, .. } => by == Party::Citizen(id),
        Event::OrgFounded { founder, .. } => founder == Some(id),
        Event::ManagerAppointed { citizen, .. } => citizen == Some(id),
        Event::EmploymentTerminated { by, .. } => by == Party::Citizen(id),
        Event::DwellingOccupied { citizen, .. } => citizen == Some(id),
        Event::MembershipRequested { citizen, .. } => citizen == id,
        Event::MemberAdmitted { citizen, .. } => citizen == id,
        Event::MemberLeft { citizen, .. } => citizen == id,
        _ => false,
    }
}

/// Whether an event is about this citizen (for digests and the API stream).
pub fn touches(event: &Event, id: CitizenId) -> (b: bool)
    ensures
        b == spec_touches(*event, id),
{
    match event {
        Event::CitizenJoined { citizen, .. } => *citizen == id,
        Event::CitizenSeen { citizen, .. } => *citizen == id,
        Event::CitizenDormant { citizen } => *citizen == id,
        Event::CitizenReturned { citizen } => *citizen == id,
        Event::HouseholderJoined { citizen, .. } => *citizen == id,
        Event::Assigned { citizen, .. } => *citizen == id,
        Event::Unassigned { citizen, .. } => *citizen == id,
        Event::DividendPaid { citizen, .. } => *citizen == id,
        Event::Paid { citizen, .. } => *citizen == id,
        Event::PaymentMissed { citizen, .. } => *citizen == id,
        Event::LaborSet { citizen, .. } => *citizen == id,
        Event::LeaseAccepted { tenant, .. } => *tenant == Party::Citizen(id),
        Event::EmploymentAccepted { citizen, .. } => *citizen == id,
        Event::HardshipBegan { citizen, .. } => *citizen == id,
        Event::HardshipEnded { citizen, .. } => *citizen == id,
        Event::DestitutionBegan { citizen, .. } => *citizen == id,
        Event::DestitutionEnded { citizen, .. } => *citizen == id,
        Event::Transferred { from, to, .. } => *from == Party::Citizen(id) || *to == Party::Citizen(id),
        Event::WantedPosted { by, .. } => *by == Party::Citizen(id),
        Event::OrgFounded { founder, .. } => *founder == Some(id),
        Event::ManagerAppointed { citizen, .. } => *citizen == Some(id),
        Event::EmploymentTerminated { by, .. } => *by == Party::Citizen(id),
        Event::DwellingOccupied { citizen, .. } => *citizen == Some(id),
        Event::MembershipRequested { citizen, .. } => *citizen == id,
        Event::MemberAdmitted { citizen, .. } => *citizen == id,
        Event::MemberLeft { citizen, .. } => *citizen == id,
        _ => false,
    }
}

/// The positions of the events that touch `citizen`, in order: the "while
/// you were away" digest.
pub fn away_digest(citizen: CitizenId, events: &Vec<Event>) -> (v: Vec<usize>)
    ensures
        forall|i: int, j: int| 0 <= i < j < v@.len() ==> v@[i] < v@[j],
        forall|i: int| 0 <= i < v@.len() ==> v@[i] < events@.len() && spec_touches(events@[v@[i] as int], citizen),
        forall|k: int| 0 <= k < events@.len() && spec_touches(#[trigger] events@[k], citizen) ==> v@.contains(k as usize),
{
    let mut v: Vec<usize> = Vec::new();
    let mut k: usize = 0;
    while k < events.len()
        invariant
            k <= events@.len(),
            forall|i: int, j: int| 0 <= i < j < v@.len() ==> v@[i] < v@[j],
            forall|i: int| 0 <= i < v@.len() ==> v@[i] < k && spec_touches(events@[v@[i] as int], citizen),
            forall|m: int| 0 <= m < k && spec_touches(#[trigger] events@[m], citizen) ==> v@.contains(m as usize),
        decreases events@.len() - k,
    {
        if touches(&events[k], citizen) {
            let ghost before = v@;
            v.push(k);
            proof {
                assert forall|m: int| 0 <= m < k + 1 && spec_touches(#[trigger] events@[m], citizen) implies v@.contains(m as usize) by {
                    if m < k {
                        let t = choose|t: int| 0 <= t < before.len() && before[t] == m as usize;
                        assert(v@[t] == m as usize);
                    } else {
                        assert(v@[v@.len() - 1] == k);
                    }
                }
            }
        }
        k = k + 1;
    }
    v
}

} // verus!
