//! Cooperatives: owned equally by their current members, who hold positions
//! at its workplaces. This module answers where a member goes, whether a coop
//! takes members, and how long a member has belonged.
use crate::apply::works_in;
use crate::event::Event;
use crate::ids::{CitizenId, OrgId, WorkplaceId};
use crate::norms::works_among;
use crate::kinds::OrgKind;
use crate::market::{lemma_sum_nonneg, lemma_sum_prefix_le};
use crate::orgs::{check_room, spec_check_room};
use crate::sum::{lemma_sum_take_all, lemma_sum_take_step, seq_sum};
use crate::table::{find, first, index_of, lemma_find, lemma_first};
use crate::money::Money;
use crate::params::ShareRule;
use crate::world::{MemberSince, Offer, OfferBody, Org, Worker, World};
use vstd::prelude::*;

verus! {

/// Whether the org exists and is a cooperative.
pub open spec fn spec_is_coop(w: World, org: OrgId) -> bool {
    match find(w.orgs@, org.0) {
        Some(i) => w.orgs@[i].kind == OrgKind::Cooperative,
        None => false,
    }
}

/// Whether the org is a cooperative.
pub fn is_coop(world: &World, org: OrgId) -> (b: bool)
    ensures
        b == spec_is_coop(*world, org),
{
    match index_of(&world.orgs, org.0) {
        Some(i) => world.orgs[i].kind == OrgKind::Cooperative,
        None => false,
    }
}

/// Whether `x` is one of the org's workplaces that exists and has room.
pub open spec fn with_room(w: World, org: Org, x: WorkplaceId) -> bool {
    org.workplaces@.contains(x) && spec_check_room(w, x) is Ok
}

/// Workers at an existing workplace.
pub open spec fn crowd(w: World, x: WorkplaceId) -> int {
    match find(w.workplaces@, x.0) {
        Some(i) => w.workplaces@[i].workers@.len() as int,
        None => 0,
    }
}

/// Whether `a` is no more crowded than `b`, ties to the lower id.
pub open spec fn less_crowded(w: World, a: WorkplaceId, b: WorkplaceId) -> bool {
    crowd(w, a) < crowd(w, b) || (crowd(w, a) == crowd(w, b) && a.0 <= b.0)
}

/// The coop's workplace with the fewest workers that still has room, ties to
/// the lowest id: where a new member is placed.
pub fn least_crowded(world: &World, org: &Org) -> (r: Option<WorkplaceId>)
    ensures
        r is None <==> forall|x: WorkplaceId| !with_room(*world, *org, x),
        r matches Some(b) ==> with_room(*world, *org, b) && forall|x: WorkplaceId|
            with_room(*world, *org, x) ==> less_crowded(*world, b, x),
{
    let mut best: Option<WorkplaceId> = None;
    let mut best_len: usize = 0;
    let mut k: usize = 0;
    while k < org.workplaces.len()
        invariant
            k <= org.workplaces@.len(),
            best is None ==> forall|j: int| 0 <= j < k ==> !with_room(*world, *org, #[trigger] org.workplaces@[j]),
            best matches Some(b) ==> {
                &&& with_room(*world, *org, b)
                &&& crowd(*world, b) == best_len
                &&& forall|j: int|
                    0 <= j < k && with_room(*world, *org, #[trigger] org.workplaces@[j]) ==> less_crowded(
                        *world,
                        b,
                        org.workplaces@[j],
                    )
            },
        decreases org.workplaces@.len() - k,
    {
        let x = org.workplaces[k];
        proof {
            assert(org.workplaces@.contains(x));
        }
        if let Ok(wp) = check_room(world, x) {
            proof {
                lemma_find(world.workplaces@, x.0);
            }
            let n = wp.workers.len();
            match best {
                None => {
                    best = Some(x);
                    best_len = n;
                },
                Some(b) => {
                    if n < best_len || (n == best_len && x.0 < b.0) {
                        best = Some(x);
                        best_len = n;
                    }
                },
            }
        }
        k = k + 1;
    }
    proof {
        assert forall|x: WorkplaceId| with_room(*world, *org, x) implies (best matches Some(b) && less_crowded(
            *world,
            b,
            x,
        )) by {
            let j = choose|j: int| 0 <= j < org.workplaces@.len() && org.workplaces@[j] == x;
        }
    }
    best
}

/// Whether the coop can take another member: a workplace with room.
pub fn would_admit(world: &World, org: &Org) -> (b: bool)
    ensures
        b == (org.kind == OrgKind::Cooperative && exists|x: WorkplaceId| with_room(*world, *org, x)),
{
    org.kind == OrgKind::Cooperative && least_crowded(world, org).is_some()
}

/// Places left at a listed workplace: the most it takes less its workers,
/// where it exists.
pub open spec fn room_at(w: World) -> spec_fn(WorkplaceId) -> int {
    |x: WorkplaceId|
        match find(w.workplaces@, x.0) {
            Some(i) => if w.workplaces@[i].workers@.len() >= w.params.labor.max_workers_per_workplace {
                0
            } else {
                w.params.labor.max_workers_per_workplace - w.workplaces@[i].workers@.len()
            },
            None => 0,
        }
}

/// Whether an offer is a request to join `org`.
pub open spec fn asks_to_join(org: OrgId) -> spec_fn(Offer) -> int {
    |f: Offer|
        match f.body {
            OfferBody::Membership { org: x, .. } => if x == org {
                1int
            } else {
                0
            },
            _ => 0,
        }
}

/// Places a coop could still fill, net of the requests already waiting on
/// it: nothing for an org that is no coop.
pub open spec fn spec_open_places(w: World, org: Org) -> int {
    if org.kind != OrgKind::Cooperative {
        0
    } else {
        let room = seq_sum(org.workplaces@, room_at(w));
        let pending = seq_sum(w.offers@, asks_to_join(org.id));
        if room >= pending {
            room - pending
        } else {
            0
        }
    }
}

/// Places left across a list of workplaces.
fn room_sum(world: &World, list: &Vec<WorkplaceId>) -> (r: u32)
    requires
        seq_sum(list@, room_at(*world)) <= u32::MAX,
    ensures
        r == seq_sum(list@, room_at(*world)),
{
    proof {
        assert forall|j: int| 0 <= j < list@.len() implies 0 <= #[trigger] room_at(*world)(list@[j]) by {}
    }
    let max = world.params.labor.max_workers_per_workplace;
    let mut total: u32 = 0;
    let mut k: usize = 0;
    while k < list.len()
        invariant
            k <= list@.len(),
            max == world.params.labor.max_workers_per_workplace,
            total == seq_sum(list@.take(k as int), room_at(*world)),
            seq_sum(list@, room_at(*world)) <= u32::MAX,
            forall|j: int| 0 <= j < list@.len() ==> 0 <= #[trigger] room_at(*world)(list@[j]),
        decreases list@.len() - k,
    {
        proof {
            lemma_sum_take_step(list@, room_at(*world), k as int);
            lemma_sum_prefix_le(list@, room_at(*world), (k + 1) as int);
        }
        let x = list[k];
        let here: u32 = match index_of(&world.workplaces, x.0) {
            Some(i) => {
                let n = world.workplaces[i].workers.len();
                if n >= max as usize {
                    0
                } else {
                    max - n as u32
                }
            },
            None => 0,
        };
        assert(here == room_at(*world)(x));
        total = total + here;
        k = k + 1;
    }
    proof {
        lemma_sum_take_all(list@, room_at(*world));
    }
    total
}

/// Requests to join `org` on the notice board.
fn pending_requests(offers: &Vec<Offer>, org: OrgId) -> (r: u64)
    ensures
        r == seq_sum(offers@, asks_to_join(org)),
{
    proof {
        assert forall|j: int| 0 <= j < offers@.len() implies 0 <= #[trigger] asks_to_join(org)(offers@[j]) <= 1 by {}
    }
    let mut total: u64 = 0;
    let mut k: usize = 0;
    while k < offers.len()
        invariant
            k <= offers@.len(),
            total == seq_sum(offers@.take(k as int), asks_to_join(org)),
            total <= k,
            forall|j: int| 0 <= j < offers@.len() ==> 0 <= #[trigger] asks_to_join(org)(offers@[j]) <= 1,
        decreases offers@.len() - k,
    {
        proof {
            lemma_sum_take_step(offers@, asks_to_join(org), k as int);
        }
        let f = offers[k];
        match f.body {
            OfferBody::Membership { org: x, .. } => {
                if x == org {
                    total = total + 1;
                }
            },
            _ => {},
        }
        k = k + 1;
    }
    proof {
        lemma_sum_take_all(offers@, asks_to_join(org));
    }
    total
}

/// Places a coop could still fill, net of the requests already waiting on it.
pub fn open_places(world: &World, org: &Org) -> (n: u32)
    requires
        seq_sum(org.workplaces@, room_at(*world)) <= u32::MAX,
    ensures
        n == spec_open_places(*world, *org),
{
    if org.kind != OrgKind::Cooperative {
        return 0;
    }
    let room = room_sum(world, &org.workplaces);
    let pending = pending_requests(&world.offers, org.id);
    if room as u64 >= pending {
        room - pending as u32
    } else {
        0
    }
}

/// Whether a member-since line is the citizen's.
pub open spec fn since_of(c: CitizenId) -> spec_fn(MemberSince) -> bool {
    |m: MemberSince| m.citizen == c
}

/// Whole cycles since a citizen became a member: none where they are not one
/// (or a cycle has no ticks), and none where they joined in the future.
pub open spec fn spec_tenure_cycles(w: World, org: Org, citizen: CitizenId) -> int {
    match first(org.member_since@, since_of(citizen)) {
        Some(k) => {
            let since = org.member_since@[k].tick;
            let elapsed = if w.meta.tick >= since {
                w.meta.tick - since
            } else {
                0
            };
            if w.params.time.ticks_per_cycle == 0 {
                0
            } else {
                elapsed / (w.params.time.ticks_per_cycle as int)
            }
        },
        None => 0,
    }
}

/// The member-since line of a citizen.
fn since_line(lines: &Vec<MemberSince>, c: CitizenId) -> (r: Option<u32>)
    ensures
        r == match first(lines@, since_of(c)) {
            Some(k) => Some(lines@[k].tick),
            None => None,
        },
{
    let mut k: usize = 0;
    while k < lines.len()
        invariant
            k <= lines@.len(),
            forall|j: int| 0 <= j < k ==> !(since_of(c))(#[trigger] lines@[j]),
        decreases lines@.len() - k,
    {
        if lines[k].citizen == c {
            proof {
                assert((since_of(c))(lines@[k as int]));
                lemma_first(lines@, since_of(c));
                let j = first(lines@, since_of(c))->0;
                if j < k {
                    assert(!(since_of(c))(lines@[j]));
                }
            }
            return Some(lines[k].tick);
        }
        k = k + 1;
    }
    proof {
        lemma_first(lines@, since_of(c));
    }
    None
}

/// Cycles a citizen has been a member.
pub fn tenure_cycles(world: &World, org: &Org, citizen: CitizenId) -> (n: u32)
    ensures
        n == spec_tenure_cycles(*world, *org, citizen),
{
    match since_line(&org.member_since, citizen) {
        Some(since) => {
            let elapsed = world.meta.tick.saturating_sub(since);
            match elapsed.checked_div(world.params.time.ticks_per_cycle) {
                Some(c) => c,
                None => 0,
            }
        },
        None => 0,
    }
}

/// Whether a worker line is `m`'s.
pub open spec fn worker_is(m: CitizenId) -> spec_fn(Worker) -> bool {
    |x: Worker| x.citizen == m
}

/// Tick-hours `m` worked this cycle at a listed workplace.
pub open spec fn hours_at(w: World, m: CitizenId) -> spec_fn(WorkplaceId) -> int {
    |x: WorkplaceId|
        match find(w.workplaces@, x.0) {
            Some(i) => match first(w.workplaces@[i].workers@, worker_is(m)) {
                Some(k) => w.workplaces@[i].workers@[k].assignment.cycle_tick_hours as int,
                None => 0,
            },
            None => 0,
        }
}

/// Tick-hours a member worked this cycle at the coop's workplaces.
pub open spec fn member_hours(w: World, org: Org, m: CitizenId) -> int {
    seq_sum(org.workplaces@, hours_at(w, m))
}

/// A member's hours, as a summand.
pub open spec fn hours_of(w: World, org: Org) -> spec_fn(CitizenId) -> int {
    |m: CitizenId| member_hours(w, org, m)
}

/// Tick-hours all members worked this cycle at the coop's workplaces.
pub open spec fn total_hours(w: World, org: Org) -> int {
    seq_sum(org.members@, hours_of(w, org))
}

/// Whether the coop splits by hours.
pub open spec fn by_hours(org: Org) -> bool {
    org.share_rule == Some(ShareRule::HoursWeighted)
}

/// A member's share before the remainder: an equal part of the surplus, or
/// its part by hours, rounded down.
pub open spec fn base_share(w: World, org: Org, surplus: int, m: CitizenId) -> int {
    if by_hours(org) {
        surplus * member_hours(w, org, m) / total_hours(w, org)
    } else {
        surplus / (org.members@.len() as int)
    }
}

/// The members with their shares before the remainder (none where the split
/// is by hours and no one worked).
pub open spec fn base_shares(w: World, org: Org, surplus: int) -> Seq<(CitizenId, int)> {
    if by_hours(org) && total_hours(w, org) == 0 {
        Seq::empty()
    } else {
        Seq::new(org.members@.len(), |i: int| (org.members@[i], base_share(w, org, surplus, org.members@[i])))
    }
}

/// A share, as a summand.
pub open spec fn share_amount() -> spec_fn((CitizenId, int)) -> int {
    |e: (CitizenId, int)| e.1
}

/// Whether a line may take a remainder cent: every line under an equal
/// split, the lines with a share otherwise.
pub open spec fn may_take(e: (CitizenId, int), equal: bool) -> bool {
    equal || e.1 > 0
}

/// How many of the first `i` lines may take a remainder cent.
pub open spec fn takers_before(s: Seq<(CitizenId, int)>, i: int, equal: bool) -> int
    decreases i,
{
    if i <= 0 {
        0
    } else {
        takers_before(s, i - 1, equal) + if may_take(s[i - 1], equal) {
            1int
        } else {
            0
        }
    }
}

/// One more cent each, in order, to the first `r` lines that may take one.
pub open spec fn bump(s: Seq<(CitizenId, int)>, r: int, equal: bool) -> Seq<(CitizenId, int)> {
    Seq::new(
        s.len(),
        |i: int|
            (s[i].0, s[i].1 + if may_take(s[i], equal) && takers_before(s, i, equal) < r {
                1int
            } else {
                0
            }),
    )
}

/// The lines with a positive share, in order.
pub open spec fn positives(s: Seq<(CitizenId, int)>) -> Seq<(CitizenId, int)>
    decreases s.len(),
{
    if s.len() == 0 {
        s
    } else if s.last().1 > 0 {
        positives(s.drop_last()).push(s.last())
    } else {
        positives(s.drop_last())
    }
}

/// The share-out of a surplus: nothing without members or surplus; else
/// each member's base share, the indivisible remainder one cent each in
/// order to those who may take it, and only the positive shares kept.
pub open spec fn spec_share_out(w: World, org: Org, surplus: int) -> Seq<(CitizenId, int)> {
    if org.members@.len() == 0 || surplus <= 0 {
        Seq::empty()
    } else {
        let base = base_shares(w, org, surplus);
        positives(bump(base, surplus - seq_sum(base, share_amount()), !by_hours(org)))
    }
}

/// Under an equal split every line may take a cent.
proof fn lemma_takers_equal(s: Seq<(CitizenId, int)>, i: int)
    requires
        0 <= i,
    ensures
        takers_before(s, i, true) == i,
    decreases i,
{
    if i > 0 {
        lemma_takers_equal(s, i - 1);
    }
}

/// Under an equal split, bumping adds one cent to each of the first `r` lines.
proof fn lemma_bump_equal_sum(s: Seq<(CitizenId, int)>, r: int)
    requires
        r >= 0,
    ensures
        seq_sum(bump(s, r, true), share_amount()) == seq_sum(s, share_amount()) + if r < s.len() {
            r
        } else {
            s.len() as int
        },
    decreases s.len(),
{
    if s.len() > 0 {
        let t = s.drop_last();
        lemma_bump_equal_sum(t, r);
        assert forall|i: int| 0 <= i < t.len() implies #[trigger] bump(s, r, true)[i] == bump(t, r, true)[i] by {
            lemma_takers_equal(s, i);
            lemma_takers_equal(t, i);
        }
        assert(bump(s, r, true).drop_last() =~= bump(t, r, true));
        lemma_takers_equal(s, s.len() - 1);
    }
}

/// Keeping the positive lines of non-negative lines keeps their sum, and
/// keeps only positive lines.
proof fn lemma_positives(s: Seq<(CitizenId, int)>)
    requires
        forall|i: int| 0 <= i < s.len() ==> (#[trigger] s[i]).1 >= 0,
    ensures
        seq_sum(positives(s), share_amount()) == seq_sum(s, share_amount()),
        forall|i: int| 0 <= i < positives(s).len() ==> (#[trigger] positives(s)[i]).1 > 0,
    decreases s.len(),
{
    if s.len() > 0 {
        let t = s.drop_last();
        assert forall|i: int| 0 <= i < t.len() implies (#[trigger] t[i]).1 >= 0 by {
            assert(t[i] == s[i]);
        }
        lemma_positives(t);
        if s.last().1 > 0 {
            assert(positives(s).drop_last() =~= positives(t));
        }
    }
}

/// `n` lines of `q` sum to `n q`.
proof fn lemma_equal_lines_sum(members: Seq<CitizenId>, n: int, q: int)
    requires
        0 <= n <= members.len(),
    ensures
        seq_sum(Seq::new(n as nat, |i: int| (members[i], q)), share_amount()) == n * q,
    decreases n,
{
    let sq = Seq::new(n as nat, |i: int| (members[i], q));
    if n > 0 {
        lemma_equal_lines_sum(members, n - 1, q);
        assert(sq.drop_last() =~= Seq::new((n - 1) as nat, |i: int| (members[i], q)));
        assert(share_amount()(sq.last()) == q);
        assert(seq_sum(sq, share_amount()) == seq_sum(sq.drop_last(), share_amount()) + q);
        assert(n * q == (n - 1) * q + q) by (nonlinear_arith);
    } else {
        assert(sq.len() == 0);
    }
}

/// Under an equal split the share-out pays out exactly the surplus, every
/// line with a positive share.
pub proof fn lemma_equal_share_out_pays_the_surplus(w: World, org: Org, surplus: int)
    requires
        !by_hours(org),
        org.members@.len() > 0,
        surplus > 0,
    ensures
        seq_sum(spec_share_out(w, org, surplus), share_amount()) == surplus,
        forall|i: int|
            0 <= i < spec_share_out(w, org, surplus).len() ==> (#[trigger] spec_share_out(w, org, surplus)[i]).1 > 0,
{
    let n = org.members@.len() as int;
    let q = surplus / n;
    let base = base_shares(w, org, surplus);
    assert(base =~= Seq::new(n as nat, |i: int| (org.members@[i], q)));
    lemma_equal_lines_sum(org.members@, n, q);
    assert(surplus == n * q + surplus % n) by (nonlinear_arith)
        requires n > 0, q == surplus / n;
    assert(0 <= surplus % n < n);
    let r = surplus - seq_sum(base, share_amount());
    lemma_bump_equal_sum(base, r);
    let bumped = bump(base, r, true);
    assert(q >= 0) by (nonlinear_arith)
        requires surplus > 0, n > 0, q == surplus / n;
    assert forall|i: int| 0 <= i < bumped.len() implies (#[trigger] bumped[i]).1 >= 0 by {}
    lemma_positives(bumped);
}

/// A non-negative term is at most the sum of non-negative terms.
proof fn lemma_term_le_sum<T>(s: Seq<T>, f: spec_fn(T) -> int, k: int)
    requires
        0 <= k < s.len(),
        forall|j: int| 0 <= j < s.len() ==> 0 <= #[trigger] f(s[j]),
    ensures
        f(s[k]) <= seq_sum(s, f),
    decreases s.len(),
{
    if k < s.len() - 1 {
        let t = s.drop_last();
        assert forall|j: int| 0 <= j < t.len() implies 0 <= #[trigger] f(t[j]) by {
            assert(t[j] == s[j]);
        }
        lemma_term_le_sum(t, f, k);
        assert(t[k] == s[k]);
    } else {
        let t = s.drop_last();
        assert forall|j: int| 0 <= j < t.len() implies 0 <= #[trigger] f(t[j]) by {
            assert(t[j] == s[j]);
        }
        lemma_sum_nonneg(t, f);
    }
}

/// The hours on a worker list for `m`.
fn worker_hours(ws: &Vec<Worker>, m: CitizenId) -> (h: u32)
    ensures
        h == match first(ws@, worker_is(m)) {
            Some(k) => ws@[k].assignment.cycle_tick_hours,
            None => 0,
        },
{
    let mut k: usize = 0;
    while k < ws.len()
        invariant
            k <= ws@.len(),
            forall|j: int| 0 <= j < k ==> !(worker_is(m))(#[trigger] ws@[j]),
        decreases ws@.len() - k,
    {
        if ws[k].citizen == m {
            proof {
                assert((worker_is(m))(ws@[k as int]));
                lemma_first(ws@, worker_is(m));
                let j = first(ws@, worker_is(m))->0;
                if j < k {
                    assert(!(worker_is(m))(ws@[j]));
                }
            }
            return ws[k].assignment.cycle_tick_hours;
        }
        k = k + 1;
    }
    proof {
        lemma_first(ws@, worker_is(m));
    }
    0
}

/// The hours `m` worked across a list of workplaces.
fn hours_over(world: &World, list: &Vec<WorkplaceId>, m: CitizenId) -> (h: u64)
    requires
        seq_sum(list@, hours_at(*world, m)) <= u64::MAX,
    ensures
        h == seq_sum(list@, hours_at(*world, m)),
{
    proof {
        assert forall|j: int| 0 <= j < list@.len() implies 0 <= #[trigger] hours_at(*world, m)(list@[j]) by {}
    }
    let mut total: u64 = 0;
    let mut k: usize = 0;
    while k < list.len()
        invariant
            k <= list@.len(),
            total == seq_sum(list@.take(k as int), hours_at(*world, m)),
            seq_sum(list@, hours_at(*world, m)) <= u64::MAX,
            forall|j: int| 0 <= j < list@.len() ==> 0 <= #[trigger] hours_at(*world, m)(list@[j]),
        decreases list@.len() - k,
    {
        proof {
            lemma_sum_take_step(list@, hours_at(*world, m), k as int);
            lemma_sum_prefix_le(list@, hours_at(*world, m), (k + 1) as int);
        }
        let x = list[k];
        let here: u32 = match index_of(&world.workplaces, x.0) {
            Some(i) => worker_hours(&world.workplaces[i].workers, m),
            None => 0,
        };
        assert(here == hours_at(*world, m)(x));
        total = total + here as u64;
        k = k + 1;
    }
    proof {
        lemma_sum_take_all(list@, hours_at(*world, m));
    }
    total
}

/// Lines with wide amounts, as lines of integers.
pub open spec fn as_lines(v: Seq<(CitizenId, i128)>) -> Seq<(CitizenId, int)> {
    Seq::new(v.len(), |i: int| (v[i].0, v[i].1 as int))
}

/// The members' hours, and their total.
fn members_hours(world: &World, org: &Org) -> (r: (Vec<u64>, u64))
    requires
        total_hours(*world, *org) <= u64::MAX,
    ensures
        r.0@.len() == org.members@.len(),
        forall|i: int| 0 <= i < org.members@.len() ==> r.0@[i] == member_hours(*world, *org, #[trigger] org.members@[i]),
        r.1 == total_hours(*world, *org),
{
    let ms = &org.members;
    proof {
        assert forall|j: int| 0 <= j < ms@.len() implies 0 <= #[trigger] hours_of(*world, *org)(ms@[j]) by {
            lemma_sum_nonneg(org.workplaces@, hours_at(*world, ms@[j]));
        }
    }
    let mut hs: Vec<u64> = Vec::new();
    let mut total: u64 = 0;
    let mut k: usize = 0;
    while k < ms.len()
        invariant
            k <= ms@.len(),
            ms@ == org.members@,
            hs@.len() == k,
            forall|i: int| 0 <= i < k ==> hs@[i] == member_hours(*world, *org, #[trigger] org.members@[i]),
            total == seq_sum(ms@.take(k as int), hours_of(*world, *org)),
            total_hours(*world, *org) <= u64::MAX,
            forall|j: int| 0 <= j < ms@.len() ==> 0 <= #[trigger] hours_of(*world, *org)(ms@[j]),
        decreases ms@.len() - k,
    {
        proof {
            lemma_sum_take_step(ms@, hours_of(*world, *org), k as int);
            lemma_sum_prefix_le(ms@, hours_of(*world, *org), (k + 1) as int);
            lemma_term_le_sum(ms@, hours_of(*world, *org), k as int);
        }
        let h = hours_over(world, &org.workplaces, ms[k]);
        hs.push(h);
        total = total + h;
        k = k + 1;
    }
    proof {
        lemma_sum_take_all(ms@, hours_of(*world, *org));
    }
    (hs, total)
}

/// The members' shares before the remainder, and their sum.
fn base_lines(world: &World, org: &Org, surplus: i64, hs: &Vec<u64>, total: u64) -> (r: (Vec<(CitizenId, i128)>, i128))
    requires
        surplus > 0,
        0 < org.members@.len() < 0x1_0000_0000,
        hs@.len() == org.members@.len(),
        forall|i: int| 0 <= i < org.members@.len() ==> hs@[i] == member_hours(*world, *org, #[trigger] org.members@[i]),
        total == total_hours(*world, *org),
        by_hours(*org) ==> total > 0,
    ensures
        as_lines(r.0@) == base_shares(*world, *org, surplus as int),
        r.1 == seq_sum(as_lines(r.0@), share_amount()),
        0 <= r.1 <= org.members@.len() * surplus,
        forall|i: int| 0 <= i < r.0@.len() ==> 0 <= (#[trigger] r.0@[i]).1 <= surplus,
{
    let by_hours_split = matches!(org.share_rule, Some(ShareRule::HoursWeighted));
    let n = org.members.len();
    let ghost target = base_shares(*world, *org, surplus as int);
    proof {
        assert forall|j: int| 0 <= j < org.members@.len() implies 0 <= #[trigger] hours_of(*world, *org)(org.members@[j]) by {
            lemma_sum_nonneg(org.workplaces@, hours_at(*world, org.members@[j]));
        }
    }
    let mut v: Vec<(CitizenId, i128)> = Vec::new();
    let mut given: i128 = 0;
    let mut k: usize = 0;
    while k < n
        invariant
            k <= n == org.members@.len() < 0x1_0000_0000,
            by_hours_split == by_hours(*org),
            surplus > 0,
            hs@.len() == n,
            forall|i: int| 0 <= i < n ==> hs@[i] == member_hours(*world, *org, #[trigger] org.members@[i]),
            total == total_hours(*world, *org),
            by_hours(*org) ==> total > 0,
            target == base_shares(*world, *org, surplus as int),
            target.len() == n,
            as_lines(v@) == target.take(k as int),
            given == seq_sum(as_lines(v@), share_amount()),
            forall|i: int| 0 <= i < v@.len() ==> 0 <= (#[trigger] v@[i]).1 <= surplus,
            0 <= given <= k * surplus,
            forall|j: int| 0 <= j < org.members@.len() ==> 0 <= #[trigger] hours_of(*world, *org)(org.members@[j]),
        decreases n - k,
    {
        let m = org.members[k];
        let amount: i128 = if by_hours_split {
            let h = hs[k];
            proof {
                lemma_term_le_sum(org.members@, hours_of(*world, *org), k as int);
                let si = surplus as int;
                let hi = h as int;
                let ti = total as int;
                assert(si * hi <= si * ti) by (nonlinear_arith)
                    requires si > 0, 0 <= hi <= ti;
                assert(si * hi / ti <= si) by (nonlinear_arith)
                    requires si > 0, 0 <= hi <= ti, ti > 0, si * hi <= si * ti;
                assert(si * hi / ti >= 0) by (nonlinear_arith)
                    requires si > 0, 0 <= hi, ti > 0;
                assert(si * hi <= 0x7fff_ffff_ffff_ffff * 0xffff_ffff_ffff_ffff) by (nonlinear_arith)
                    requires 0 < si <= i64::MAX, 0 <= hi <= u64::MAX;
            }
            surplus as i128 * h as i128 / total as i128
        } else {
            proof {
                let si = surplus as int;
                let ni = n as int;
                assert(0 <= si / ni <= si) by (nonlinear_arith)
                    requires si > 0, ni >= 1;
            }
            surplus as i128 / n as i128
        };
        assert(target[k as int] == (m, amount as int));
        let ghost before = as_lines(v@);
        v.push((m, amount));
        proof {
            assert(as_lines(v@) =~= before.push((m, amount as int)));
            assert(target.take(k + 1) =~= target.take(k as int).push(target[k as int]));
            assert(share_amount()((m, amount as int)) == amount);
            assert(as_lines(v@).drop_last() =~= before);
            assert((k + 1) * surplus == k * surplus + surplus) by (nonlinear_arith);
            assert(k * surplus <= 0x1_0000_0000 * 0x8000_0000_0000_0000) by (nonlinear_arith)
                requires k < 0x1_0000_0000, 0 < surplus <= i64::MAX;
        }
        given = given + amount;
        k = k + 1;
    }
    proof {
        assert(target.take(n as int) =~= target);
    }
    (v, given)
}

/// The share-out of a coop's surplus among its members: who gets what.
pub fn share_out(world: &World, org: &Org, surplus: Money) -> (r: Vec<(CitizenId, Money)>)
    requires
        total_hours(*world, *org) <= u64::MAX,
        org.members@.len() < 0x1_0000_0000,
    ensures
        r@.len() == spec_share_out(*world, *org, surplus.0 as int).len(),
        forall|i: int|
            0 <= i < r@.len() ==> (#[trigger] r@[i]).0 == spec_share_out(*world, *org, surplus.0 as int)[i].0 && r@[i].1.0
                == spec_share_out(*world, *org, surplus.0 as int)[i].1,
{
    let n = org.members.len();
    if n == 0 || surplus.0 <= 0 {
        return Vec::new();
    }
    let equal = !matches!(org.share_rule, Some(ShareRule::HoursWeighted));
    let (hs, total) = members_hours(world, org);
    if !equal && total == 0 {
        proof {
            assert(base_shares(*world, *org, surplus.0 as int).len() == 0);
            assert(bump(Seq::<(CitizenId, int)>::empty(), surplus.0 as int, false) =~= Seq::<(CitizenId, int)>::empty());
        }
        return Vec::new();
    }
    let (base, given) = base_lines(world, org, surplus.0, &hs, total);
    proof {
        let ni = n as int;
        let si = surplus.0 as int;
        assert(ni * si <= 0x1_0000_0000 * 0x7fff_ffff_ffff_ffff) by (nonlinear_arith)
            requires 0 < ni < 0x1_0000_0000, 0 < si <= i64::MAX;
    }
    let r: i128 = surplus.0 as i128 - given;
    let ghost sb = as_lines(base@);
    let ghost bumped = bump(sb, r as int, equal);
    proof {
        assert forall|i: int| 0 <= i < sb.len() implies 0 <= #[trigger] share_amount()(sb[i]) by {
            assert(sb[i].1 == base@[i].1);
        }
    }
    // Hand the remainder out, one cent each, in order.
    let mut lines: Vec<(CitizenId, i128)> = Vec::new();
    let mut takers: i128 = 0;
    let mut k: usize = 0;
    while k < base.len()
        invariant
            k <= base@.len() < 0x1_0000_0000,
            sb == as_lines(base@),
            bumped == bump(sb, r as int, equal),
            takers == takers_before(sb, k as int, equal),
            0 <= takers <= k,
            as_lines(lines@) == bumped.take(k as int),
            forall|i: int| 0 <= i < base@.len() ==> 0 <= (#[trigger] base@[i]).1 <= surplus.0,
            forall|i: int| 0 <= i < lines@.len() ==> 0 <= (#[trigger] lines@[i]).1 <= surplus.0,
            given == seq_sum(sb, share_amount()),
            r == surplus.0 - given,
            forall|i: int| 0 <= i < sb.len() ==> 0 <= #[trigger] share_amount()(sb[i]),
        decreases base@.len() - k,
    {
        let (m, a) = base[k];
        let may = equal || a > 0;
        proof {
            assert(sb[k as int] == (m, a as int));
            if may && takers < r {
                lemma_term_le_sum(sb, share_amount(), k as int);
            }
        }
        let b: i128 = if may && takers < r {
            a + 1
        } else {
            a
        };
        let ghost before = as_lines(lines@);
        lines.push((m, b));
        proof {
            assert(sb[k as int] == (m, a as int));
            assert(bumped[k as int] == (m, b as int));
            assert(as_lines(lines@) =~= before.push((m, b as int)));
            assert(bumped.take(k + 1) =~= bumped.take(k as int).push(bumped[k as int]));
        }
        if may {
            takers = takers + 1;
        }
        k = k + 1;
    }
    proof {
        assert(bumped.take(base@.len() as int) =~= bumped);
    }
    // Keep the positive shares.
    let mut out: Vec<(CitizenId, Money)> = Vec::new();
    let ghost lv = as_lines(lines@);
    let mut j: usize = 0;
    while j < lines.len()
        invariant
            j <= lines@.len(),
            lv == as_lines(lines@),
            out@.len() == positives(lv.take(j as int)).len(),
            forall|i: int|
                0 <= i < out@.len() ==> (#[trigger] out@[i]).0 == positives(lv.take(j as int))[i].0 && out@[i].1.0
                    == positives(lv.take(j as int))[i].1,
            forall|i: int| 0 <= i < lines@.len() ==> 0 <= (#[trigger] lines@[i]).1 <= surplus.0,
        decreases lines@.len() - j,
    {
        let (m, a) = lines[j];
        proof {
            assert(lv.take(j + 1).drop_last() =~= lv.take(j as int));
            assert(lv.take(j + 1).last() == (m, a as int));
        }
        if a > 0 {
            out.push((m, Money(a as i64)));
        }
        j = j + 1;
    }
    proof {
        assert(lv.take(lines@.len() as int) =~= lv);
    }
    out
}

/// The positions `c` gives up at the workplaces `wps`, in their order: one
/// for each that exists and has `c` among its workers.
pub open spec fn posts_left(w: World, wps: Seq<WorkplaceId>, c: CitizenId) -> Seq<Event>
    decreases wps.len(),
{
    if wps.len() == 0 {
        Seq::empty()
    } else {
        let rest = posts_left(w, wps.drop_last(), c);
        match find(w.workplaces@, wps.last().0) {
            Some(i) => if works_in(w.workplaces@[i].workers@, c) {
                rest.push(Event::Unassigned { workplace: wps.last(), citizen: c })
            } else {
                rest
            },
            None => rest,
        }
    }
}

/// What taking `c` out of an org emits: leaving it, then giving up each
/// position at its workplaces.
pub open spec fn spec_leave_events(w: World, org: Org, c: CitizenId) -> Seq<Event> {
    seq![Event::MemberLeft { org: org.id, citizen: c }] + posts_left(w, org.workplaces@, c)
}

/// The events that take a citizen out of a coop: `MemberLeft` plus an
/// `Unassigned` for every position at its workplaces.
pub fn leave_events(world: &World, org: &Org, citizen: CitizenId) -> (v: Vec<Event>)
    ensures
        v@ == spec_leave_events(*world, *org, citizen),
{
    let mut v: Vec<Event> = Vec::new();
    v.push(Event::MemberLeft { org: org.id, citizen });
    let ghost head = seq![Event::MemberLeft { org: org.id, citizen }];
    let mut k: usize = 0;
    while k < org.workplaces.len()
        invariant
            k <= org.workplaces@.len(),
            v@ == head + posts_left(*world, org.workplaces@.take(k as int), citizen),
        decreases org.workplaces@.len() - k,
    {
        let wp = org.workplaces[k];
        proof {
            assert(org.workplaces@.take(k + 1).drop_last() =~= org.workplaces@.take(k as int));
            lemma_find(world.workplaces@, wp.0);
        }
        match index_of(&world.workplaces, wp.0) {
            Some(i) => {
                if works_among(&world.workplaces[i].workers, citizen) {
                    v.push(Event::Unassigned { workplace: wp, citizen });
                    proof {
                        assert(v@ =~= head + posts_left(*world, org.workplaces@.take(k + 1), citizen));
                    }
                }
            },
            None => {},
        }
        k = k + 1;
    }
    proof {
        assert(org.workplaces@.take(org.workplaces@.len() as int) =~= org.workplaces@);
    }
    v
}

/// What `SetShareRule` answers: a cooperative's manager sets how its surplus
/// is shared.
pub open spec fn spec_set_share_rule(
    w: World,
    actor: crate::event::Actor,
    on_behalf_of: Option<OrgId>,
    org: OrgId,
    rule: ShareRule,
) -> Result<Seq<Event>, crate::command::RejectCode> {
    match crate::orgs::spec_managed_org(w, actor, on_behalf_of, org) {
        Err(c) => Err(c),
        Ok(oi) => if w.orgs@[oi].kind != OrgKind::Cooperative {
            Err(crate::command::RejectCode::NotInThisSociety)
        } else {
            Ok(seq![Event::ShareRuleSet { org, rule }])
        },
    }
}

/// `SetShareRule`: a cooperative's manager sets how its surplus is shared.
pub fn set_share_rule<C>(
    world: &World,
    envelope: &crate::command::Envelope<C>,
    org: OrgId,
    rule: ShareRule,
) -> (r: Result<Vec<Event>, crate::command::Reject>)
    ensures
        match (r, spec_set_share_rule(*world, envelope.actor, envelope.on_behalf_of, org, rule)) {
            (Ok(v), Ok(s)) => v@ == s,
            (Err(e), Err(code)) => e.code == code,
            _ => false,
        },
{
    let o = crate::orgs::managed_org(world, envelope, org)?;
    if o.kind != OrgKind::Cooperative {
        let mut m = String::new();
        crate::message::put_name(&mut m, &o.name);
        crate::message::put(&mut m, " is not a cooperative");
        return Err(crate::command::Reject::new(crate::command::RejectCode::NotInThisSociety, m));
    }
    let mut v: Vec<Event> = Vec::new();
    v.push(Event::ShareRuleSet { org, rule });
    proof {
        assert(v@ =~= seq![Event::ShareRuleSet { org, rule }]);
    }
    Ok(v)
}

} // verus!
