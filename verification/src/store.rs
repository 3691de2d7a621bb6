//! The Common Store of a moneyless society: what a citizen has asked of it
//! this tick, and what they are entitled to draw.
use crate::ids::CitizenId;
use crate::kinds::Good;
use crate::market::lemma_sum_prefix_le;
use crate::sum::{lemma_sum_take_all, lemma_sum_take_step, seq_sum};
use crate::world::{copy_list, Citizen, StoreRequest, World};
use rand::rngs::StdRng;
use rand::seq::SliceRandom;
use vstd::prelude::*;

verus! {

/// One resolved request: how much was asked and how much the store served.
#[derive(Clone, Copy, Debug, PartialEq, Eq)]
pub struct Served {
    pub citizen: CitizenId,
    pub requested: u32,
    pub served: u32,
}

/// Tenths of a meter point one unit of a good restores: Food fills the food
/// meter, Wares the comfort meter; other goods restore nothing.
pub open spec fn spec_tenths_per_unit(w: World, good: Good) -> Option<int> {
    match good {
        Good::Food => Some(w.params.needs.food_meter_per_unit * 10),
        Good::Wares => Some(w.params.needs.comfort_per_wares * 10),
        _ => None,
    }
}

/// What a request adds to a citizen's pending units of a good.
pub open spec fn requested(citizen: CitizenId, good: Good) -> spec_fn(StoreRequest) -> int {
    |r: StoreRequest| if r.citizen == citizen && r.good == good { r.qty as int } else { 0 }
}

/// Units of `good` the citizen has requested this tick (none without a store).
pub open spec fn spec_pending(w: World, citizen: CitizenId, good: Good) -> int {
    match w.store {
        Some(s) => seq_sum(s.requests@, requested(citizen, good)),
        None => 0,
    }
}

/// The units requested in a list.
fn requested_sum(rs: &Vec<StoreRequest>, citizen: CitizenId, good: Good) -> (r: u32)
    requires
        seq_sum(rs@, requested(citizen, good)) <= u32::MAX,
    ensures
        r == seq_sum(rs@, requested(citizen, good)),
{
    proof {
        assert forall|j: int| 0 <= j < rs@.len() implies 0 <= #[trigger] requested(citizen, good)(rs@[j]) by {}
    }
    let mut total: u32 = 0;
    let mut k: usize = 0;
    while k < rs.len()
        invariant
            k <= rs@.len(),
            total == seq_sum(rs@.take(k as int), requested(citizen, good)),
            seq_sum(rs@, requested(citizen, good)) <= u32::MAX,
            forall|j: int| 0 <= j < rs@.len() ==> 0 <= #[trigger] requested(citizen, good)(rs@[j]),
        decreases rs@.len() - k,
    {
        proof {
            lemma_sum_take_step(rs@, requested(citizen, good), k as int);
            lemma_sum_prefix_le(rs@, requested(citizen, good), (k + 1) as int);
        }
        let r = rs[k];
        if r.citizen == citizen && r.good == good {
            total = total + r.qty;
        }
        k = k + 1;
    }
    proof {
        lemma_sum_take_all(rs@, requested(citizen, good));
    }
    total
}

/// Units of `good` the citizen has requested this tick and not yet drawn.
pub fn pending(world: &World, citizen: CitizenId, good: Good) -> (q: u32)
    requires
        spec_pending(*world, citizen, good) <= u32::MAX,
    ensures
        q == spec_pending(*world, citizen, good),
{
    match &world.store {
        Some(s) => requested_sum(&s.requests, citizen, good),
        None => 0,
    }
}

/// `a - b`, or zero where `b` is larger.
pub open spec fn minus(a: int, b: int) -> int {
    if a >= b {
        a - b
    } else {
        0
    }
}

/// Draw entitlement: the units that would bring the meter to full, less what
/// the pantry holds and what is already requested this tick, capped by the
/// pantry room. Nothing for a good that fills no meter.
pub open spec fn spec_entitlement(w: World, c: Citizen, good: Good) -> int {
    match spec_tenths_per_unit(w, good) {
        None => 0,
        Some(per) => {
            let meter = if good == Good::Food {
                c.needs.food
            } else {
                c.needs.comfort
            };
            let shortfall = minus(1000, meter as int);
            let wanted = (shortfall + per - 1) / per;
            let have = c.household.pantry.spec_get(good) + spec_pending(w, c.id, good);
            let by_need = minus(wanted, have);
            let room = match w.params.pantry.spec_get(good) {
                Some(cap) => minus(cap as int, have),
                None => u32::MAX as int,
            };
            if by_need <= room {
                by_need
            } else {
                room
            }
        },
    }
}

/// The meter a good fills, for a citizen.
pub open spec fn meter_of(c: Citizen, good: Good) -> int {
    if good == Good::Food {
        c.needs.food as int
    } else {
        c.needs.comfort as int
    }
}

/// A draw of `q` units that asks for no more than the citizen needs: nothing
/// for a good that fills no meter; with what the pantry holds and what the
/// citizen already requested this tick, every unit but the last still leaves
/// part of the meter to fill; and the pantry stays within its cap.
pub open spec fn within_need(w: World, c: Citizen, good: Good, q: int) -> bool {
    let have = c.household.pantry.spec_get(good) + spec_pending(w, c.id, good);
    &&& q >= 0
    &&& spec_tenths_per_unit(w, good) is None ==> q == 0
    &&& spec_tenths_per_unit(w, good) matches Some(per) ==> (q > 0 ==> (q + have - 1) * per < 1000 - meter_of(c, good))
    &&& w.params.pantry.spec_get(good) matches Some(cap) ==> (q > 0 ==> q + have <= cap)
}

/// Rounding up: `n` units of `per` cover `s` with less than a unit to spare.
proof fn lemma_units_to_fill(s: int, per: int)
    requires
        s >= 0,
        per > 0,
    ensures
        ((s + per - 1) / per - 1) * per < s || s == 0,
        ((s + per - 1) / per) * per >= s,
        (s + per - 1) / per >= 0,
        s == 0 ==> (s + per - 1) / per == 0,
{
    let n = (s + per - 1) / per;
    vstd::arithmetic::div_mod::lemma_fundamental_div_mod(s + per - 1, per);
    let r = (s + per - 1) % per;
    assert(0 <= r < per);
    assert(n * per + r == s + per - 1) by (nonlinear_arith)
        requires
            s + per - 1 == per * n + r,
    ;
    assert((n - 1) * per == n * per - per) by (nonlinear_arith);
    assert(n * per >= s);
    if s == 0 {
        assert(n * per == per - 1 - r);
        assert(n < 1) by (nonlinear_arith)
            requires
                n * per == per - 1 - r,
                0 <= r,
                per > 0,
        ;
        assert(n >= 0) by (nonlinear_arith)
            requires
                n * per + r == per - 1,
                r < per,
                per > 0,
        ;
    } else {
        assert(n >= 0) by (nonlinear_arith)
            requires
                n * per + r == s + per - 1,
                r < per,
                per > 0,
                s > 0,
        ;
    }
}

/// A citizen's draw entitlement never takes them past a full meter, counting
/// what the pantry holds and every unit they already requested this tick,
/// nor past the pantry cap; and it is as much as may be drawn: one unit more
/// would do one or the other.
pub proof fn lemma_entitlement_within_need(w: World, c: Citizen, good: Good)
    requires
        spec_tenths_per_unit(w, good) matches Some(per) ==> per > 0,
    ensures
        within_need(w, c, good, spec_entitlement(w, c, good)),
        spec_tenths_per_unit(w, good) is Some ==> !within_need(w, c, good, spec_entitlement(w, c, good) + 1),
{
    let q = spec_entitlement(w, c, good);
    let have = c.household.pantry.spec_get(good) + spec_pending(w, c.id, good);
    match spec_tenths_per_unit(w, good) {
        None => {},
        Some(per) => {
            let meter = if good == Good::Food {
                c.needs.food
            } else {
                c.needs.comfort
            };
            let shortfall = minus(1000, meter as int);
            lemma_units_to_fill(shortfall, per);
            let wanted = (shortfall + per - 1) / per;
            if q > 0 {
                assert(have >= 0) by {
                    match w.store {
                        Some(st) => {
                            assert forall|j: int| 0 <= j < st.requests@.len() implies 0 <= #[trigger] requested(c.id, good)(
                                st.requests@[j],
                            ) by {}
                            crate::sum::lemma_sum_nonneg_terms(st.requests@, requested(c.id, good));
                        },
                        None => {},
                    }
                }
                assert(q + have <= wanted);
                assert(shortfall > 0);
                assert((q + have - 1) * per <= (wanted - 1) * per) by (nonlinear_arith)
                    requires
                        q + have <= wanted,
                        per > 0,
                ;
            }
            assert(have >= 0) by {
                match w.store {
                    Some(st) => {
                        assert forall|j: int| 0 <= j < st.requests@.len() implies 0 <= #[trigger] requested(c.id, good)(
                            st.requests@[j],
                        ) by {}
                        crate::sum::lemma_sum_nonneg_terms(st.requests@, requested(c.id, good));
                    },
                    None => {},
                }
            }
            let by_need = minus(wanted, have);
            if q == by_need {
                if wanted >= have {
                    assert((q + 1 + have - 1) * per == wanted * per);
                } else {
                    assert(q == 0);
                    assert(have * per >= wanted * per) by (nonlinear_arith)
                        requires
                            have >= wanted,
                            per > 0,
                    ;
                    assert((q + 1 + have - 1) * per == have * per);
                }
                assert(meter_of(c, good) == meter as int);
                assert(!((q + 1 + have - 1) * per < 1000 - meter_of(c, good)));
            }
        },
    }
}

/// The units a citizen may draw of a good this tick.
pub fn entitlement(world: &World, citizen: &Citizen, good: Good) -> (q: u32)
    requires
        spec_tenths_per_unit(*world, good) matches Some(per) ==> per > 0,
        citizen.household.pantry.spec_get(good) + spec_pending(*world, citizen.id, good) <= u32::MAX,
    ensures
        q == spec_entitlement(*world, *citizen, good),
        within_need(*world, *citizen, good, q as int),
        spec_tenths_per_unit(*world, good) is Some ==> !within_need(*world, *citizen, good, q + 1),
{
    proof {
        lemma_entitlement_within_need(*world, *citizen, good);
    }
    let per: u16 = match good {
        Good::Food => world.params.needs.food_meter_per_unit as u16 * 10,
        Good::Wares => world.params.needs.comfort_per_wares as u16 * 10,
        _ => {
            return 0;
        },
    };
    let meter = if good == Good::Food {
        citizen.needs.food
    } else {
        citizen.needs.comfort
    };
    let shortfall: u16 = 1000u16.saturating_sub(meter);
    let wanted: u32 = ((shortfall as u32 + per as u32 - 1) / per as u32) as u32;
    let have = citizen.household.pantry.get(good) + pending(world, citizen.id, good);
    let by_need = wanted.saturating_sub(have);
    let room = match world.params.pantry.get(good) {
        Some(cap) => cap.saturating_sub(have),
        None => u32::MAX,
    };
    if by_need <= room {
        by_need
    } else {
        room
    }
}

/// The generator a tick draws its chances from.
#[verifier::external_type_specification]
#[verifier::external_body]
pub struct ExStdRng(rand::rngs::StdRng);

/// Shuffle the requests with the generator: rand's `SliceRandom::shuffle`
/// (a Fisher-Yates shuffle by swaps) gives back the same requests, in an
/// order the generator picks. Which order is not stated: it rests on the
/// generator's state, which the call also advances.
#[verifier::external_body]
fn shuffle_requests(rng: &mut StdRng, v: &mut Vec<StoreRequest>)
    ensures
        final(v)@.to_multiset() == old(v)@.to_multiset(),
{
    v.shuffle(rng);
}

/// `s`, largest request first, with `r` placed after every request at
/// least as large.
pub open spec fn insert_by_size(s: Seq<StoreRequest>, r: StoreRequest) -> Seq<StoreRequest>
    decreases s.len(),
{
    if s.len() == 0 {
        seq![r]
    } else if s.last().qty >= r.qty {
        s.push(r)
    } else {
        insert_by_size(s.drop_last(), r).push(s.last())
    }
}

/// The requests largest first, equal requests in the order they came (a
/// stable sort by size, descending).
pub open spec fn largest_first(s: Seq<StoreRequest>) -> Seq<StoreRequest>
    decreases s.len(),
{
    if s.len() == 0 {
        s
    } else {
        insert_by_size(largest_first(s.drop_last()), s.last())
    }
}

/// The requests served in turn from `stock`: each in full while the stock
/// lasts, then what is left, then nothing.
pub open spec fn serve_from(s: Seq<StoreRequest>, stock: int) -> Seq<Served>
    decreases s.len(),
{
    if s.len() == 0 {
        Seq::empty()
    } else {
        let give = if s[0].qty <= stock {
            s[0].qty as int
        } else {
            stock
        };
        seq![Served { citizen: s[0].citizen, requested: s[0].qty, served: give as u32 }] + serve_from(
            s.drop_first(),
            stock - give,
        )
    }
}

/// Units asked for in `s`.
pub open spec fn total_requested(s: Seq<StoreRequest>) -> int
    decreases s.len(),
{
    if s.len() == 0 {
        0
    } else {
        s[0].qty + total_requested(s.drop_first())
    }
}

/// Units handed out in `v`.
pub open spec fn total_served(v: Seq<Served>) -> int
    decreases v.len(),
{
    if v.len() == 0 {
        0
    } else {
        v[0].served + total_served(v.drop_first())
    }
}

/// Serving in turn hands out everything asked for where the stock covers
/// it, else the whole stock: never more than either.
pub proof fn lemma_serve_hands_out(s: Seq<StoreRequest>, stock: int)
    requires
        stock >= 0,
    ensures
        total_served(serve_from(s, stock)) == if total_requested(s) <= stock {
            total_requested(s)
        } else {
            stock
        },
    decreases s.len(),
{
    if s.len() > 0 {
        let give = if s[0].qty <= stock {
            s[0].qty as int
        } else {
            stock
        };
        lemma_serve_hands_out(s.drop_first(), stock - give);
        let v = serve_from(s, stock);
        assert(v.drop_first() =~= serve_from(s.drop_first(), stock - give));
        assert(total_requested(s.drop_first()) >= 0) by {
            lemma_requested_nonneg(s.drop_first());
        }
    }
}

/// Units asked for are never negative.
proof fn lemma_requested_nonneg(s: Seq<StoreRequest>)
    ensures
        total_requested(s) >= 0,
    decreases s.len(),
{
    if s.len() > 0 {
        lemma_requested_nonneg(s.drop_first());
    }
}

/// Place `r` in `s` after every request at least as large.
fn insert_request(s: &mut Vec<StoreRequest>, r: StoreRequest)
    ensures
        final(s)@ == insert_by_size(old(s)@, r),
    decreases old(s)@.len(),
{
    let n = s.len();
    if n == 0 {
        s.push(r);
        proof {
            assert(s@ =~= seq![r]);
        }
    } else if s[n - 1].qty >= r.qty {
        s.push(r);
    } else {
        let last = s.pop().unwrap();
        proof {
            assert(s@ =~= old(s)@.drop_last());
        }
        insert_request(s, r);
        s.push(last);
    }
}

/// The requests largest first, equal requests in the order they came.
pub fn sort_largest_first(v: &Vec<StoreRequest>) -> (r: Vec<StoreRequest>)
    ensures
        r@ == largest_first(v@),
{
    let mut r: Vec<StoreRequest> = Vec::new();
    let mut k: usize = 0;
    while k < v.len()
        invariant
            k <= v@.len(),
            r@ == largest_first(v@.take(k as int)),
        decreases v@.len() - k,
    {
        proof {
            assert(v@.take(k + 1).drop_last() =~= v@.take(k as int));
        }
        insert_request(&mut r, v[k]);
        k = k + 1;
    }
    proof {
        assert(v@.take(v@.len() as int) =~= v@);
    }
    r
}

/// Serve the requests in the order given from `stock`.
pub fn serve_in_turn(order: &Vec<StoreRequest>, stock: u32) -> (v: Vec<Served>)
    ensures
        v@ == serve_from(order@, stock as int),
{
    let mut v: Vec<Served> = Vec::new();
    let mut remaining = stock;
    let mut k: usize = 0;
    proof {
        assert(order@.skip(0) =~= order@);
        assert(v@ + serve_from(order@, stock as int) =~= serve_from(order@, stock as int));
    }
    while k < order.len()
        invariant
            k <= order@.len(),
            v@ + serve_from(order@.skip(k as int), remaining as int) == serve_from(order@, stock as int),
        decreases order@.len() - k,
    {
        let r = order[k];
        let give = if r.qty <= remaining {
            r.qty
        } else {
            remaining
        };
        proof {
            let t = order@.skip(k as int);
            assert(t[0] == r);
            assert(t.drop_first() =~= order@.skip(k + 1));
        }
        let ghost before = v@;
        v.push(Served { citizen: r.citizen, requested: r.qty, served: give });
        remaining = remaining - give;
        proof {
            assert(v@ =~= before + seq![Served { citizen: r.citizen, requested: r.qty, served: give }]);
        }
        k = k + 1;
    }
    proof {
        assert(order@.skip(order@.len() as int) =~= Seq::<StoreRequest>::empty());
        assert(v@ + Seq::<Served>::empty() =~= v@);
    }
    v
}

/// Need-first for requests already in tie-breaking order: the largest
/// request is served first, equal ones in the order given, each in full
/// while the stock lasts.
pub fn serve_need_first(order: &Vec<StoreRequest>, stock: u32) -> (v: Vec<Served>)
    ensures
        v@ == serve_from(largest_first(order@), stock as int),
{
    let sorted = sort_largest_first(order);
    serve_in_turn(&sorted, stock)
}

/// Need-first: the largest request is served first; ties are in the
/// generator's order. Every request is served in full while the stock lasts.
pub fn need_first(rng: &mut StdRng, requests: &Vec<StoreRequest>, stock: u32) -> (v: Vec<Served>)
    ensures
        exists|order: Seq<StoreRequest>|
            order.to_multiset() == requests@.to_multiset() && v@ == serve_from(largest_first(order), stock as int),
{
    let mut order = copy_list(requests);
    shuffle_requests(rng, &mut order);
    serve_need_first(&order, stock)
}

/// Requests in order of size, largest first.
pub open spec fn by_size_descending(s: Seq<StoreRequest>) -> bool {
    forall|i: int, j: int| 0 <= i < j < s.len() ==> (#[trigger] s[i]).qty >= (#[trigger] s[j]).qty
}

/// Placing a request keeps the order and adds just that request.
proof fn lemma_insert_by_size(s: Seq<StoreRequest>, r: StoreRequest)
    requires
        by_size_descending(s),
    ensures
        by_size_descending(insert_by_size(s, r)),
        insert_by_size(s, r).to_multiset() == s.to_multiset().insert(r),
        insert_by_size(s, r).len() == s.len() + 1,
        s.len() > 0 && s.last().qty < r.qty ==> insert_by_size(s, r).last() == s.last(),
        s.len() == 0 || s.last().qty >= r.qty ==> insert_by_size(s, r).last() == r,
    decreases s.len(),
{
    broadcast use vstd::seq_lib::group_to_multiset_ensures;

    if s.len() == 0 {
        assert(seq![r] =~= Seq::<StoreRequest>::empty().push(r));
    } else if s.last().qty >= r.qty {
    } else {
        let t = s.drop_last();
        lemma_insert_by_size(t, r);
        let u = insert_by_size(t, r);
        assert(s =~= t.push(s.last()));
        assert forall|i: int, j: int| 0 <= i < j < u.push(s.last()).len() implies (#[trigger] u.push(s.last())[i]).qty
            >= (#[trigger] u.push(s.last())[j]).qty by {
            if j == u.len() {
                // Everything before the moved request is at least as large:
                // the requests of `t`, and `r`, which is larger.
                assert(u.to_multiset().count(u[i]) > 0);
                assert(t.to_multiset().insert(r).count(u[i]) > 0);
                if u[i] != r {
                    assert(t.to_multiset().count(u[i]) > 0);
                    assert(t.contains(u[i]));
                    let k = choose|k: int| 0 <= k < t.len() && t[k] == u[i];
                    assert(s[k] == t[k]);
                    assert(s[k].qty >= s[s.len() - 1].qty);
                }
            }
        }
    }
}

/// Largest-first puts the same requests in order of size.
pub proof fn lemma_largest_first(s: Seq<StoreRequest>)
    ensures
        by_size_descending(largest_first(s)),
        largest_first(s).to_multiset() == s.to_multiset(),
    decreases s.len(),
{
    broadcast use vstd::seq_lib::group_to_multiset_ensures;

    if s.len() > 0 {
        lemma_largest_first(s.drop_last());
        lemma_insert_by_size(largest_first(s.drop_last()), s.last());
        assert(s =~= s.drop_last().push(s.last()));
    }
}

} // verus!
