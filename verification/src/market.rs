//! Order books: one continuous double auction per instrument. This module
//! holds what the books answer: escrow sizes, prices, open quantities, depth.
use crate::ids::Tick;
use crate::kinds::Good;
use crate::ledger::{Asset, Party};
use crate::money::Money;
use crate::sum::{lemma_sum_take_all, lemma_sum_take_step, seq_sum};
use crate::table::{first, lemma_first};
use crate::world::{Instrument, Order, OrderBook, Side, World};
use vstd::prelude::*;

verus! {

/// Money a bid must escrow: `remaining × limit`.
pub fn bid_escrow(remaining: u32, limit: Money) -> (m: Money)
    requires
        i64::MIN <= limit.0 * remaining <= i64::MAX,
    ensures
        m.0 == limit.0 * remaining,
{
    Money(limit.0 * remaining as i64)
}

/// What an order holds in escrow: money for the rest of a bid, the goods of a
/// goods ask. A share ask holds its shares in the share escrow, and no money.
pub open spec fn spec_escrow_of(order: Order) -> Asset {
    match (order.side, order.instrument) {
        (Side::Bid, _) => Asset::Money(Money((order.limit_price.0 * order.remaining) as i64)),
        (Side::Ask, Instrument::Good(g)) => Asset::Good(g, order.remaining),
        (Side::Ask, Instrument::Share(_)) => Asset::Money(Money(0)),
    }
}

/// What an order holds in escrow right now.
pub fn escrow_of(order: &Order) -> (a: Asset)
    requires
        order.side == Side::Bid ==> i64::MIN <= order.limit_price.0 * order.remaining <= i64::MAX,
    ensures
        a == spec_escrow_of(*order),
{
    match (order.side, order.instrument) {
        (Side::Bid, _) => Asset::Money(bid_escrow(order.remaining, order.limit_price)),
        (Side::Ask, Instrument::Good(g)) => Asset::Good(g, order.remaining),
        (Side::Ask, Instrument::Share(_)) => Asset::Money(Money(0)),
    }
}

/// The last tick of the cycle `order_expiry_cycles` after the current one.
pub open spec fn spec_default_expiry(w: World) -> int {
    (w.spec_cycle_of(w.meta.tick) + 1 + w.params.market.order_expiry_cycles) * w.params.time.ticks_per_cycle - 1
}

/// The default expiry: the end of the cycle `order_expiry_cycles` after this one.
pub fn default_expiry(world: &World) -> (t: Tick)
    requires
        world.params.time.ticks_per_cycle > 0,
        spec_default_expiry(*world) < u32::MAX,
    ensures
        t == spec_default_expiry(*world),
{
    let tpc = world.params.time.ticks_per_cycle;
    let cycle = world.cycle_of(world.meta.tick);
    let e = world.params.market.order_expiry_cycles;
    proof {
        let c = cycle as int;
        assert((c + 1 + e) * tpc >= (c + 1 + e)) by (nonlinear_arith)
            requires tpc >= 1, c + 1 + e >= 0;
    }
    (cycle + 1 + e) * tpc - 1
}

/// Whether a book trades `i`.
pub open spec fn trades(i: Instrument) -> spec_fn(OrderBook) -> bool {
    |b: OrderBook| b.instrument == i
}

/// The book of an instrument: the first that trades it.
pub open spec fn book_of(w: World, i: Instrument) -> Option<OrderBook> {
    match first(w.books@, trades(i)) {
        Some(k) => Some(w.books@[k]),
        None => None,
    }
}

/// The position of the book that trades `i`.
pub fn book_index(world: &World, i: Instrument) -> (r: Option<usize>)
    ensures
        r matches Some(k) ==> first(world.books@, trades(i)) == Some(k as int) && k < world.books@.len()
            && world.books@[k as int].instrument == i,
        r is None ==> first(world.books@, trades(i)) is None,
{
    let mut k: usize = 0;
    while k < world.books.len()
        invariant
            k <= world.books@.len(),
            forall|j: int| 0 <= j < k ==> !(trades(i))(#[trigger] world.books@[j]),
        decreases world.books@.len() - k,
    {
        if world.books[k].instrument == i {
            proof {
                lemma_first(world.books@, trades(i));
            }
            return Some(k);
        }
        k = k + 1;
    }
    proof {
        lemma_first(world.books@, trades(i));
    }
    None
}

/// The last traded price; else a good's start price; else none.
pub open spec fn spec_last_price(w: World, i: Instrument) -> Option<Money> {
    let fallback = match i {
        Instrument::Good(g) => w.params.money.start_prices.spec_get(g),
        Instrument::Share(_) => None,
    };
    match book_of(w, i) {
        Some(b) => match b.last_price {
            Some(p) => Some(p),
            None => fallback,
        },
        None => fallback,
    }
}

/// Last traded price, else the start price, else none.
pub fn last_price(world: &World, instrument: Instrument) -> (p: Option<Money>)
    ensures
        p == spec_last_price(*world, instrument),
{
    if let Some(k) = book_index(world, instrument) {
        if let Some(p) = world.books[k].last_price {
            return Some(p);
        }
    }
    match instrument {
        Instrument::Good(g) => world.params.money.start_prices.get(g),
        Instrument::Share(_) => None,
    }
}

/// What a resting order adds to a party's open bids.
pub open spec fn open_bid_of(party: Party) -> spec_fn(Order) -> int {
    |o: Order| if o.owner == party && o.side == Side::Bid { o.remaining as int } else { 0 }
}

/// A party's open bid quantity for a good: the rest of its bids on the
/// good's book.
pub open spec fn spec_open_bid_qty(w: World, party: Party, good: Good) -> int {
    match book_of(w, Instrument::Good(good)) {
        Some(b) => seq_sum(b.orders@, open_bid_of(party)),
        None => 0,
    }
}

/// Open bid quantity a party has resting for a good.
pub fn open_bid_qty(world: &World, party: Party, good: Good) -> (q: u32)
    requires
        spec_open_bid_qty(*world, party, good) <= u32::MAX,
    ensures
        q == spec_open_bid_qty(*world, party, good),
{
    let k = match book_index(world, Instrument::Good(good)) {
        Some(k) => k,
        None => {
            return 0;
        },
    };
    let orders = &world.books[k].orders;
    proof {
        lemma_first(world.books@, trades(Instrument::Good(good)));
        assert forall|j: int| 0 <= j < orders@.len() implies 0 <= #[trigger] open_bid_of(party)(orders@[j]) by {}
    }
    let mut total: u32 = 0;
    let mut i: usize = 0;
    while i < orders.len()
        invariant
            i <= orders@.len(),
            total == seq_sum(orders@.take(i as int), open_bid_of(party)),
            seq_sum(orders@, open_bid_of(party)) <= u32::MAX,
            forall|j: int| 0 <= j < orders@.len() ==> 0 <= #[trigger] open_bid_of(party)(orders@[j]),
        decreases orders@.len() - i,
    {
        proof {
            lemma_sum_take_step(orders@, open_bid_of(party), i as int);
            lemma_sum_prefix_le(orders@, open_bid_of(party), (i + 1) as int);
        }
        let o = orders[i];
        assert(open_bid_of(party)(o) == if o.owner == party && o.side == Side::Bid { o.remaining as int } else { 0 });
        if o.owner == party && o.side == Side::Bid {
            total = total + o.remaining;
        }
        i = i + 1;
    }
    proof {
        lemma_sum_take_all(orders@, open_bid_of(party));
    }
    total
}

/// A prefix of non-negative terms sums to no more than the whole.
pub proof fn lemma_sum_prefix_le<T>(s: Seq<T>, f: spec_fn(T) -> int, i: int)
    requires
        0 <= i <= s.len(),
        forall|j: int| 0 <= j < s.len() ==> 0 <= #[trigger] f(s[j]),
    ensures
        0 <= seq_sum(s.take(i), f) <= seq_sum(s, f),
    decreases s.len() - i,
{
    assert forall|j: int| 0 <= j < s.take(i).len() implies 0 <= #[trigger] f(s.take(i)[j]) by {
        assert(s.take(i)[j] == s[j]);
    }
    lemma_sum_nonneg(s.take(i), f);
    if i == s.len() {
        lemma_sum_take_all(s, f);
    } else {
        lemma_sum_prefix_le(s, f, i + 1);
        lemma_sum_take_step(s, f, i);
    }
}

/// Non-negative terms have a non-negative sum.
pub proof fn lemma_sum_nonneg<T>(s: Seq<T>, f: spec_fn(T) -> int)
    requires
        forall|j: int| 0 <= j < s.len() ==> 0 <= #[trigger] f(s[j]),
    ensures
        0 <= seq_sum(s, f),
    decreases s.len(),
{
    if s.len() > 0 {
        lemma_sum_nonneg(s.drop_last(), f);
    }
}

/// Whether an order rests on `side`: it is on that side with some left.
pub open spec fn rests_on(o: Order, side: Side) -> bool {
    o.side == side && o.remaining > 0
}

/// An order's resting quantity at price `p` on `side`, as a summand.
pub open spec fn at_level(side: Side, p: Money) -> spec_fn(Order) -> int {
    |o: Order|
        if rests_on(o, side) && o.limit_price == p {
            o.remaining as int
        } else {
            0
        }
}

/// The quantity resting at price `p` on `side` among `os`.
pub open spec fn level_qty(os: Seq<Order>, side: Side, p: Money) -> int {
    seq_sum(os, at_level(side, p))
}

/// Whether some order of `os` rests on `side` at price `p`.
pub open spec fn level_of(os: Seq<Order>, side: Side, p: Money) -> bool {
    exists|j: int| 0 <= j < os.len() && rests_on(#[trigger] os[j], side) && os[j].limit_price == p
}

/// `v` lists the price levels of `os` on `side`, best first (lowest ask,
/// highest bid), each once with the quantity resting there.
pub open spec fn is_depth(v: Seq<(Money, u32)>, os: Seq<Order>, side: Side) -> bool {
    &&& forall|i: int, j: int|
        0 <= i < j < v.len() ==> if side == Side::Ask {
            (#[trigger] v[i]).0.0 < (#[trigger] v[j]).0.0
        } else {
            v[i].0.0 > v[j].0.0
        }
    &&& forall|i: int| 0 <= i < v.len() ==> level_of(os, side, (#[trigger] v[i]).0) && v[i].1 == level_qty(os, side, v[i].0)
    &&& forall|j: int|
        0 <= j < os.len() && rests_on(#[trigger] os[j], side) ==> exists|i: int| 0 <= i < v.len() && (#[trigger] v[i]).0 == os[j].limit_price
}

/// Whether every price level's quantity on `side` fits a count.
pub open spec fn levels_fit(os: Seq<Order>, side: Side) -> bool {
    forall|p: Money| #[trigger] level_qty(os, side, p) <= u32::MAX
}

/// The price levels of `os` on `side`, lowest first.
#[verifier::spinoff_prover]
#[verifier::rlimit(60)]
fn ascending_levels(os: &Vec<Order>, side: Side) -> (v: Vec<(Money, u32)>)
    requires
        levels_fit(os@, side),
    ensures
        forall|i: int, j: int| 0 <= i < j < v@.len() ==> (#[trigger] v@[i]).0.0 < (#[trigger] v@[j]).0.0,
        forall|i: int| 0 <= i < v@.len() ==> level_of(os@, side, (#[trigger] v@[i]).0) && v@[i].1 == level_qty(os@, side, v@[i].0),
        forall|j: int|
            0 <= j < os@.len() && rests_on(#[trigger] os@[j], side) ==> exists|i: int| 0 <= i < v@.len() && (#[trigger] v@[i]).0 == os@[j].limit_price,
{
    let mut v: Vec<(Money, u32)> = Vec::new();
    let mut k: usize = 0;
    while k < os.len()
        invariant
            k <= os@.len(),
            levels_fit(os@, side),
            forall|i: int, j: int| 0 <= i < j < v@.len() ==> (#[trigger] v@[i]).0.0 < (#[trigger] v@[j]).0.0,
            forall|i: int|
                0 <= i < v@.len() ==> level_of(os@.take(k as int), side, (#[trigger] v@[i]).0) && v@[i].1 == level_qty(
                    os@.take(k as int),
                    side,
                    v@[i].0,
                ),
            forall|p: Money|
                (forall|i: int| 0 <= i < v@.len() ==> (#[trigger] v@[i]).0 != p) ==> #[trigger] level_qty(os@.take(k as int), side, p)
                    == 0,
            forall|j: int|
                0 <= j < k && rests_on(#[trigger] os@[j], side) ==> exists|i: int| 0 <= i < v@.len() && (#[trigger] v@[i]).0 == os@[j].limit_price,
        decreases os@.len() - k,
    {
        let o = os[k];
        let ghost before = v@;
        let ghost pre = os@.take(k as int);
        let ghost post = os@.take(k + 1);
        proof {
            assert forall|p: Money| #[trigger] level_qty(post, side, p) == level_qty(pre, side, p) + at_level(side, p)(o) by {
                lemma_sum_take_step(os@, at_level(side, p), k as int);
            }
            assert forall|p: Money| level_of(pre, side, p) implies #[trigger] level_of(post, side, p) by {
                let j = choose|j: int| 0 <= j < pre.len() && rests_on(#[trigger] pre[j], side) && pre[j].limit_price == p;
                assert(post[j] == pre[j]);
            }
            assert forall|p: Money| #[trigger] level_qty(post, side, p) <= u32::MAX by {
                assert forall|j: int| 0 <= j < os@.len() implies 0 <= #[trigger] at_level(side, p)(os@[j]) by {}
                lemma_sum_prefix_le(os@, at_level(side, p), k + 1);
                assert(level_qty(os@, side, p) <= u32::MAX);
            }
        }
        if o.side == side && o.remaining > 0 {
            let price = o.limit_price;
            let mut pos: usize = 0;
            while pos < v.len() && v[pos].0.0 < price.0
                invariant
                    pos <= v@.len(),
                    v@ == before,
                    forall|i: int| 0 <= i < pos ==> (#[trigger] v@[i]).0.0 < price.0,
                decreases v@.len() - pos,
            {
                pos = pos + 1;
            }
            proof {
                assert(level_of(post, side, price)) by {
                    assert(post[k as int] == o);
                }
            }
            if pos < v.len() && v[pos].0.0 == price.0 {
                let (lp, lq) = v[pos];
                proof {
                    assert(lp == price);
                    assert(level_qty(post, side, price) == lq + o.remaining);
                }
                v.set(pos, (lp, lq + o.remaining));
                proof {
                    assert forall|p: Money|
                        (forall|i: int| 0 <= i < v@.len() ==> (#[trigger] v@[i]).0 != p) implies #[trigger] level_qty(post, side, p) == 0 by {
                        assert forall|i: int| 0 <= i < before.len() implies (#[trigger] before[i]).0 != p by {
                            assert(v@[i].0 == before[i].0);
                        }
                        assert(p != price);
                    }
                    assert forall|j: int| 0 <= j < k + 1 && rests_on(#[trigger] os@[j], side) implies exists|i: int|
                        0 <= i < v@.len() && (#[trigger] v@[i]).0 == os@[j].limit_price by {
                        if j < k {
                            let i = choose|i: int| 0 <= i < before.len() && (#[trigger] before[i]).0 == os@[j].limit_price;
                            assert(v@[i].0 == before[i].0);
                        } else {
                            assert(v@[pos as int].0 == os@[j].limit_price);
                        }
                    }
                }
            } else {
                proof {
                    assert forall|i: int| 0 <= i < before.len() implies (#[trigger] before[i]).0 != price by {
                        if i >= pos {
                            if i > pos {
                                assert(before[pos as int].0.0 < before[i].0.0);
                            }
                        }
                    }
                    assert(level_qty(pre, side, price) == 0);
                }
                v.insert(pos, (price, o.remaining));
                proof {
                    assert forall|p: Money|
                        (forall|i: int| 0 <= i < v@.len() ==> (#[trigger] v@[i]).0 != p) implies #[trigger] level_qty(post, side, p) == 0 by {
                        assert(v@[pos as int].0 != p);
                        assert forall|i: int| 0 <= i < before.len() implies (#[trigger] before[i]).0 != p by {
                            if i < pos {
                                assert(v@[i].0 == before[i].0);
                            } else {
                                assert(v@[i + 1].0 == before[i].0);
                            }
                        }
                    }
                    assert forall|j: int| 0 <= j < k + 1 && rests_on(#[trigger] os@[j], side) implies exists|i: int|
                        0 <= i < v@.len() && (#[trigger] v@[i]).0 == os@[j].limit_price by {
                        if j < k {
                            let i = choose|i: int| 0 <= i < before.len() && (#[trigger] before[i]).0 == os@[j].limit_price;
                            if i < pos {
                                assert(v@[i].0 == before[i].0);
                            } else {
                                assert(v@[i + 1].0 == before[i].0);
                            }
                        } else {
                            assert(v@[pos as int].0 == os@[j].limit_price);
                        }
                    }
                    assert forall|i: int, j: int| 0 <= i < j < v@.len() implies (#[trigger] v@[i]).0.0 < (#[trigger] v@[j]).0.0 by {
                        if j < pos {
                        } else if i < pos && j == pos {
                        } else if i < pos {
                            assert(v@[j].0 == before[j - 1].0);
                            assert(before[i].0.0 < price.0);
                        } else if i == pos {
                            assert(v@[j].0 == before[j - 1].0);
                        } else {
                            assert(v@[i].0 == before[i - 1].0);
                            assert(v@[j].0 == before[j - 1].0);
                        }
                    }
                }
            }
        } else {
            proof {
                assert forall|j: int| 0 <= j < k + 1 && rests_on(#[trigger] os@[j], side) implies exists|i: int|
                    0 <= i < v@.len() && (#[trigger] v@[i]).0 == os@[j].limit_price by {
                    assert(j < k);
                }
            }
        }
        k = k + 1;
    }
    proof {
        assert(os@.take(os@.len() as int) =~= os@);
    }
    v
}

/// The depth of an instrument's book on one side: each price level with
/// the quantity resting there, best first; nothing where there is no book.
pub fn depth(world: &World, instrument: Instrument, side: Side) -> (v: Vec<(Money, u32)>)
    requires
        book_of(*world, instrument) matches Some(b) ==> levels_fit(b.orders@, side),
    ensures
        match book_of(*world, instrument) {
            Some(b) => is_depth(v@, b.orders@, side),
            None => v@.len() == 0,
        },
{
    let k = match book_index(world, instrument) {
        Some(k) => k,
        None => {
            return Vec::new();
        },
    };
    let up = ascending_levels(&world.books[k].orders, side);
    if side == Side::Ask {
        return up;
    }
    let mut v: Vec<(Money, u32)> = Vec::new();
    let mut i: usize = up.len();
    while i > 0
        invariant
            i <= up@.len(),
            v@.len() == up@.len() - i,
            forall|j: int| 0 <= j < v@.len() ==> #[trigger] v@[j] == up@[up@.len() - 1 - j],
        decreases i,
    {
        i = i - 1;
        v.push(up[i]);
    }
    proof {
        let os = world.books@[k as int].orders@;
        assert forall|a: int, c: int| 0 <= a < c < v@.len() implies (#[trigger] v@[a]).0.0 > (#[trigger] v@[c]).0.0 by {
            assert(up@[up@.len() - 1 - c].0.0 < up@[up@.len() - 1 - a].0.0);
        }
        assert forall|j: int| 0 <= j < os.len() && rests_on(#[trigger] os[j], side) implies exists|a: int|
            0 <= a < v@.len() && (#[trigger] v@[a]).0 == os[j].limit_price by {
            let a = choose|a: int| 0 <= a < up@.len() && (#[trigger] up@[a]).0 == os[j].limit_price;
            assert(v@[up@.len() - 1 - a] == up@[a]);
        }
        assert forall|a: int| 0 <= a < v@.len() implies level_of(os, side, (#[trigger] v@[a]).0) && v@[a].1 == level_qty(os, side, v@[a].0) by {
            assert(v@[a] == up@[up@.len() - 1 - a]);
        }
    }
    v
}

} // verus!
