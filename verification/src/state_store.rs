//! The state store of an administered society: its price list, what a
//! citizen has asked of it, and what their ration card still allows.
use crate::ids::CitizenId;
use crate::kinds::Good;
use crate::market::lemma_sum_prefix_le;
use crate::money::Money;
use crate::sum::{lemma_sum_take_all, lemma_sum_take_step, seq_sum};
use crate::table::{first, lemma_first};
use crate::world::{Issued, StateRequest, World};
use vstd::prelude::*;

verus! {

/// The published price of a good, if the price list carries it.
pub open spec fn spec_list_price(w: World, good: Good) -> Option<Money> {
    match w.policy.price_list {
        Some(l) => l.spec_get(good),
        None => None,
    }
}

/// The published price of a good, if the price list carries it.
pub fn list_price(world: &World, good: Good) -> (p: Option<Money>)
    ensures
        p == spec_list_price(*world, good),
{
    match &world.policy.price_list {
        Some(l) => l.get(good),
        None => None,
    }
}

/// What a request adds to a citizen's pending units of a good.
pub open spec fn asked(citizen: CitizenId, good: Good) -> spec_fn(StateRequest) -> int {
    |r: StateRequest| if r.citizen == citizen && r.good == good { r.qty as int } else { 0 }
}

/// Units of `good` the citizen has requested this tick (none without a state store).
pub open spec fn spec_pending(w: World, citizen: CitizenId, good: Good) -> int {
    match w.state_stock {
        Some(s) => seq_sum(s.requests@, asked(citizen, good)),
        None => 0,
    }
}

/// The units asked in a list.
fn asked_sum(rs: &Vec<StateRequest>, citizen: CitizenId, good: Good) -> (r: u32)
    requires
        seq_sum(rs@, asked(citizen, good)) <= u32::MAX,
    ensures
        r == seq_sum(rs@, asked(citizen, good)),
{
    proof {
        assert forall|j: int| 0 <= j < rs@.len() implies 0 <= #[trigger] asked(citizen, good)(rs@[j]) by {}
    }
    let mut total: u32 = 0;
    let mut k: usize = 0;
    while k < rs.len()
        invariant
            k <= rs@.len(),
            total == seq_sum(rs@.take(k as int), asked(citizen, good)),
            seq_sum(rs@, asked(citizen, good)) <= u32::MAX,
            forall|j: int| 0 <= j < rs@.len() ==> 0 <= #[trigger] asked(citizen, good)(rs@[j]),
        decreases rs@.len() - k,
    {
        proof {
            lemma_sum_take_step(rs@, asked(citizen, good), k as int);
            lemma_sum_prefix_le(rs@, asked(citizen, good), (k + 1) as int);
        }
        let r = rs[k];
        if r.citizen == citizen && r.good == good {
            total = total + r.qty;
        }
        k = k + 1;
    }
    proof {
        lemma_sum_take_all(rs@, asked(citizen, good));
    }
    total
}

/// Units of `good` the citizen has requested this tick and not yet been served.
pub fn pending(world: &World, citizen: CitizenId, good: Good) -> (q: u32)
    requires
        spec_pending(*world, citizen, good) <= u32::MAX,
    ensures
        q == spec_pending(*world, citizen, good),
{
    match &world.state_stock {
        Some(s) => asked_sum(&s.requests, citizen, good),
        None => 0,
    }
}

/// Whether an issue line is the citizen's.
pub open spec fn issued_to(citizen: CitizenId) -> spec_fn(Issued) -> bool {
    |x: Issued| x.citizen == citizen
}

/// Units of a good issued to the citizen this cycle.
pub open spec fn spec_issued(w: World, citizen: CitizenId, good: Good) -> u32 {
    match w.state_stock {
        Some(s) => match first(s.issued_this_cycle@, issued_to(citizen)) {
            Some(k) => s.issued_this_cycle@[k].goods.spec_get(good),
            None => 0,
        },
        None => 0,
    }
}

/// Units of `good` the citizen may still buy this cycle under a ration card:
/// the cap less what was issued, and no limit where the good is not rationed.
pub open spec fn spec_ration_remaining(w: World, citizen: CitizenId, good: Good) -> u32 {
    match w.policy.ration_caps {
        Some(caps) => match caps.spec_get(good) {
            Some(cap) => if cap >= spec_issued(w, citizen, good) {
                (cap - spec_issued(w, citizen, good)) as u32
            } else {
                0
            },
            None => u32::MAX,
        },
        None => u32::MAX,
    }
}

/// Units issued to a citizen in a list of issue lines.
fn issued_in(lines: &Vec<Issued>, citizen: CitizenId, good: Good) -> (q: u32)
    ensures
        q == match first(lines@, issued_to(citizen)) {
            Some(k) => lines@[k].goods.spec_get(good),
            None => 0,
        },
{
    let mut k: usize = 0;
    while k < lines.len()
        invariant
            k <= lines@.len(),
            forall|j: int| 0 <= j < k ==> !(issued_to(citizen))(#[trigger] lines@[j]),
        decreases lines@.len() - k,
    {
        if lines[k].citizen == citizen {
            proof {
                assert((issued_to(citizen))(lines@[k as int]));
                lemma_first(lines@, issued_to(citizen));
                let j = first(lines@, issued_to(citizen))->0;
                if j < k {
                    assert(!(issued_to(citizen))(lines@[j]));
                }
            }
            return lines[k].goods.get(good);
        }
        k = k + 1;
    }
    proof {
        lemma_first(lines@, issued_to(citizen));
    }
    0
}

/// Units of `good` the citizen may still buy this cycle under a ration card.
pub fn ration_remaining(world: &World, citizen: CitizenId, good: Good) -> (q: u32)
    ensures
        q == spec_ration_remaining(*world, citizen, good),
{
    let cap = match &world.policy.ration_caps {
        Some(caps) => match caps.get(good) {
            Some(cap) => cap,
            None => {
                return u32::MAX;
            },
        },
        None => {
            return u32::MAX;
        },
    };
    let issued = match &world.state_stock {
        Some(s) => issued_in(&s.issued_this_cycle, citizen, good),
        None => 0,
    };
    cap.saturating_sub(issued)
}

} // verus!
