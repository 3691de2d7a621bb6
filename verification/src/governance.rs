//! The proposal machine: offices held, proposals open, who votes, and
//! whether a tally carries.
use crate::constitution::{OfficeKind, RecallRule};
use crate::ids::CitizenId;
use crate::kinds::CitizenKind;
use crate::sum::{lemma_sum_take_all, lemma_sum_take_step, seq_sum};
use crate::table::{first, lemma_first};
use crate::world::{Approval, Ballot, Citizen, Election, Holding, OfficeRecord, Proposal, Seats, Vote, VoteDefault, World};
use crate::table::{find, index_of, lemma_find};
use vstd::prelude::*;

verus! {

/// The count of an assembly vote.
#[derive(Clone, Copy, Debug, PartialEq, Eq)]
pub struct Tally {
    pub yes: u32,
    pub no: u32,
    pub abstain: u32,
    pub cast: u32,
    pub quorum: u32,
    pub eligible: u32,
}

/// Whether a seat list has `c` in it.
pub open spec fn seated(hs: Seq<Holding>, c: CitizenId) -> bool {
    exists|j: int| 0 <= j < hs.len() && hs[j].citizen == c
}

/// Whether `c` sits in a list of seats.
fn sits(hs: &Vec<Holding>, c: CitizenId) -> (b: bool)
    ensures
        b == seated(hs@, c),
{
    let mut k: usize = 0;
    while k < hs.len()
        invariant
            k <= hs@.len(),
            forall|j: int| 0 <= j < k ==> (#[trigger] hs@[j]).citizen != c,
        decreases hs@.len() - k,
    {
        if hs[k].citizen == c {
            return true;
        }
        k = k + 1;
    }
    false
}

/// Whether `citizen` holds a seat of `kind`.
pub open spec fn spec_holds(w: World, citizen: CitizenId, kind: OfficeKind) -> bool {
    exists|i: int|
        0 <= i < w.offices.holders@.len() && (#[trigger] w.offices.holders@[i]).kind == kind && seated(
            w.offices.holders@[i].holders@,
            citizen,
        )
}

/// Whether `citizen` holds a seat of `kind` right now.
pub fn holds(world: &World, citizen: CitizenId, kind: OfficeKind) -> (b: bool)
    ensures
        b == spec_holds(*world, citizen, kind),
{
    let seats = &world.offices.holders;
    let mut k: usize = 0;
    while k < seats.len()
        invariant
            k <= seats@.len(),
            seats@ == world.offices.holders@,
            forall|j: int|
                0 <= j < k ==> !((#[trigger] seats@[j]).kind == kind && seated(seats@[j].holders@, citizen)),
        decreases seats@.len() - k,
    {
        if seats[k].kind == kind && sits(&seats[k].holders, citizen) {
            assert(world.offices.holders@[k as int].kind == kind);
            return true;
        }
        k = k + 1;
    }
    false
}

/// Whether `citizen` holds any office.
pub open spec fn spec_holds_any_office(w: World, citizen: CitizenId) -> bool {
    exists|i: int|
        0 <= i < w.offices.holders@.len() && seated((#[trigger] w.offices.holders@[i]).holders@, citizen)
}

/// Whether `citizen` holds any office.
pub fn holds_any_office(world: &World, citizen: CitizenId) -> (b: bool)
    ensures
        b == spec_holds_any_office(*world, citizen),
{
    let seats = &world.offices.holders;
    let mut k: usize = 0;
    while k < seats.len()
        invariant
            k <= seats@.len(),
            seats@ == world.offices.holders@,
            forall|j: int| 0 <= j < k ==> !seated((#[trigger] seats@[j]).holders@, citizen),
        decreases seats@.len() - k,
    {
        if sits(&seats[k].holders, citizen) {
            assert(seated(world.offices.holders@[k as int].holders@, citizen));
            return true;
        }
        k = k + 1;
    }
    false
}

/// Whether a proposal is `citizen`'s, as a count.
pub open spec fn opened_by(citizen: CitizenId) -> spec_fn(Proposal) -> int {
    |p: Proposal| if p.by == citizen { 1int } else { 0 }
}

/// The number of proposals `citizen` has open.
pub open spec fn spec_open_by(w: World, citizen: CitizenId) -> int {
    seq_sum(w.proposals@, opened_by(citizen))
}

/// The proposals `citizen` has open.
pub fn open_by(world: &World, citizen: CitizenId) -> (n: usize)
    ensures
        n == spec_open_by(*world, citizen),
{
    let ps = &world.proposals;
    let mut n: usize = 0;
    let mut k: usize = 0;
    while k < ps.len()
        invariant
            k <= ps@.len(),
            n == seq_sum(ps@.take(k as int), opened_by(citizen)),
            n <= k,
        decreases ps@.len() - k,
    {
        proof {
            lemma_sum_take_step(ps@, opened_by(citizen), k as int);
        }
        if ps[k].by == citizen {
            n = n + 1;
        }
        k = k + 1;
    }
    proof {
        lemma_sum_take_all(ps@, opened_by(citizen));
    }
    n
}

/// Whether a citizen's ballot counts in the assembly: an active human.
pub open spec fn votes(c: Citizen) -> bool {
    c.kind == CitizenKind::Human && !c.dormant
}

/// The ids of the voters among `s`, in order.
pub open spec fn voters(s: Seq<Citizen>) -> Seq<CitizenId>
    decreases s.len(),
{
    if s.len() == 0 {
        Seq::empty()
    } else if votes(s.last()) {
        voters(s.drop_last()).push(s.last().id)
    } else {
        voters(s.drop_last())
    }
}

/// The citizens whose ballots the assembly counts: non-dormant humans, in id order.
pub fn electorate(world: &World) -> (v: Vec<CitizenId>)
    ensures
        v@ == voters(world.citizens@),
{
    let cs = &world.citizens;
    let mut v: Vec<CitizenId> = Vec::new();
    let mut k: usize = 0;
    while k < cs.len()
        invariant
            k <= cs@.len(),
            v@ == voters(cs@.take(k as int)),
        decreases cs@.len() - k,
    {
        proof {
            assert(cs@.take(k + 1).drop_last() =~= cs@.take(k as int));
        }
        if cs[k].kind == CitizenKind::Human && !cs[k].dormant {
            v.push(cs[k].id);
        }
        k = k + 1;
    }
    proof {
        assert(cs@.take(cs@.len() as int) =~= cs@);
    }
    v
}

/// Whether an assembly tally carries: the quorum reached over every ballot
/// cast, and more yes than no.
pub open spec fn spec_carries(t: Tally) -> bool {
    t.cast >= t.quorum && t.yes > t.no
}

/// Whether an assembly tally carries.
pub fn carries(t: &Tally) -> (b: bool)
    ensures
        b ==> t.cast >= t.quorum,
        b ==> t.yes > t.no,
        t.cast >= t.quorum && t.yes > t.no ==> b,
        b == spec_carries(*t),
{
    t.cast >= t.quorum && t.yes > t.no
}

/// Whether a recall carries: as any vote under a majority rule; under two
/// thirds, the quorum reached and at least two thirds of the yes and no
/// ballots yes (and some yes).
pub open spec fn spec_recall_carries(t: Tally, rule: RecallRule) -> bool {
    match rule {
        RecallRule::Majority => spec_carries(t),
        RecallRule::TwoThirds => t.cast >= t.quorum && t.yes > 0 && t.yes * 3 >= (t.yes + t.no) * 2,
    }
}

/// Whether a recall carries under `rule`.
pub fn recall_carries(t: &Tally, rule: RecallRule) -> (b: bool)
    ensures
        b == spec_recall_carries(*t, rule),
        b ==> t.cast >= t.quorum,
        b ==> t.yes > t.no,
        rule == RecallRule::TwoThirds && b ==> 3 * t.yes >= 2 * (t.yes + t.no),
{
    match rule {
        RecallRule::Majority => carries(t),
        RecallRule::TwoThirds => t.cast >= t.quorum && t.yes > 0 && t.yes as u64 * 3 >= (t.yes as u64 + t.no as u64)
            * 2,
    }
}

/// A vote carries exactly when the quorum is reached and yes outnumbers no;
/// a tally that misses the quorum carries under no recall rule either, and a
/// two-thirds recall needs twice as many yes as no.
pub proof fn lemma_votes_need_quorum(t: Tally, rule: RecallRule)
    ensures
        spec_carries(t) ==> t.cast >= t.quorum && t.yes > t.no,
        t.cast >= t.quorum && t.yes > t.no ==> spec_carries(t),
        t.cast < t.quorum ==> !spec_carries(t) && !spec_recall_carries(t, rule),
        t.yes <= t.no ==> !spec_carries(t) && !spec_recall_carries(t, rule),
        spec_recall_carries(t, RecallRule::TwoThirds) ==> t.yes >= 2 * t.no && t.yes > 0,
{
}

/// Whether a ballot is `c`'s.
pub open spec fn ballot_of(c: CitizenId) -> spec_fn(Vote) -> bool {
    |v: Vote| v.citizen == c
}

/// The ballot `vote_default` casts for a citizen who cast none: an abstention
/// as itself, the followed citizen's own ballot (an abstention where they
/// cast none), or nothing.
pub open spec fn spec_default_ballot(c: Citizen, own: Seq<Vote>) -> Option<Ballot> {
    match c.plan.vote_default {
        VoteDefault::Abstain => Some(Ballot::Abstain),
        VoteDefault::Follow(who) => match first(own, ballot_of(who)) {
            Some(k) => Some(own[k].ballot),
            None => Some(Ballot::Abstain),
        },
        VoteDefault::NoDefault => None,
    }
}

/// The ballot `c` cast, if any.
fn cast_by(own: &Vec<Vote>, c: CitizenId) -> (r: Option<Ballot>)
    ensures
        r == match first(own@, ballot_of(c)) {
            Some(k) => Some(own@[k].ballot),
            None => None,
        },
{
    let mut k: usize = 0;
    while k < own.len()
        invariant
            k <= own@.len(),
            forall|j: int| 0 <= j < k ==> !(ballot_of(c))(#[trigger] own@[j]),
        decreases own@.len() - k,
    {
        if own[k].citizen == c {
            proof {
                assert((ballot_of(c))(own@[k as int]));
                lemma_first(own@, ballot_of(c));
                let j = first(own@, ballot_of(c))->0;
                if j < k {
                    assert(!(ballot_of(c))(own@[j]));
                }
            }
            return Some(own[k].ballot);
        }
        k = k + 1;
    }
    proof {
        lemma_first(own@, ballot_of(c));
    }
    None
}

/// The ballot a citizen's standing default casts.
pub fn default_ballot(citizen: &Citizen, own: &Vec<Vote>) -> (r: Option<Ballot>)
    ensures
        r == spec_default_ballot(*citizen, own@),
{
    match citizen.plan.vote_default {
        VoteDefault::Abstain => Some(Ballot::Abstain),
        VoteDefault::Follow(who) => match cast_by(own, who) {
            Some(b) => Some(b),
            None => Some(Ballot::Abstain),
        },
        VoteDefault::NoDefault => None,
    }
}

/// A candidate in an election: approvals received and past terms served.
#[derive(Clone, Copy, Debug, PartialEq, Eq, Structural)]
pub struct RankRow {
    pub citizen: CitizenId,
    pub approvals: u32,
    pub terms: u32,
}

/// A ballot's approval of `c`, as a summand.
pub open spec fn approves(c: CitizenId) -> spec_fn(Approval) -> int {
    |a: Approval|
        if a.approves@.contains(c) {
            1int
        } else {
            0int
        }
}

/// How many ballots approve `c` (capped at the largest count).
pub open spec fn approvals_of(e: Election, c: CitizenId) -> u32 {
    let n = seq_sum(e.approvals@, approves(c));
    if n <= u32::MAX {
        n as u32
    } else {
        u32::MAX
    }
}

/// Whether an office record is `c`'s in `office`.
pub open spec fn record_of(c: CitizenId, office: OfficeKind) -> spec_fn(OfficeRecord) -> bool {
    |r: OfficeRecord| r.citizen == c && r.kind == office
}

/// The terms `c` has served in `office`: their record's, or none.
pub open spec fn terms_of(w: World, c: CitizenId, office: OfficeKind) -> u32 {
    match first(w.offices.records@, record_of(c, office)) {
        Some(k) => w.offices.records@[k].terms,
        None => 0,
    }
}

/// A candidate's row, where they are a citizen who is not dormant.
pub open spec fn rank_row(w: World, e: Election, c: CitizenId) -> Option<RankRow> {
    match find(w.citizens@, c.0) {
        Some(i) => if !w.citizens@[i].dormant {
            Some(RankRow { citizen: c, approvals: approvals_of(e, c), terms: terms_of(w, c, e.office) })
        } else {
            None
        },
        None => None,
    }
}

/// The rows of the candidates of `cs`, in order.
pub open spec fn rank_rows(w: World, e: Election, cs: Seq<CitizenId>) -> Seq<RankRow>
    decreases cs.len(),
{
    if cs.len() == 0 {
        Seq::empty()
    } else {
        match rank_row(w, e, cs.last()) {
            Some(r) => rank_rows(w, e, cs.drop_last()).push(r),
            None => rank_rows(w, e, cs.drop_last()),
        }
    }
}

/// Whether `a` ranks no lower than `b`: more approvals, then fewer past
/// terms, then the lower id.
pub open spec fn ranks_before(a: RankRow, b: RankRow) -> bool {
    ||| a.approvals > b.approvals
    ||| a.approvals == b.approvals && a.terms < b.terms
    ||| a.approvals == b.approvals && a.terms == b.terms && a.citizen.0 <= b.citizen.0
}

/// Whether rows are in rank order.
pub open spec fn rank_sorted(rs: Seq<RankRow>) -> bool {
    forall|i: int, j: int| 0 <= i < j < rs.len() ==> ranks_before(#[trigger] rs[i], #[trigger] rs[j])
}

/// A row and what the ranking shows of it.
pub open spec fn shown(r: RankRow) -> (CitizenId, u32) {
    (r.citizen, r.approvals)
}

/// What the ranking shows of rows.
pub open spec fn shown_all(rs: Seq<RankRow>) -> Seq<(CitizenId, u32)> {
    rs.map_values(|r: RankRow| shown(r))
}

/// `v` is the election's ranking: its candidates' rows, in rank order.
pub open spec fn is_ranking(v: Seq<(CitizenId, u32)>, w: World, e: Election) -> bool {
    exists|rs: Seq<RankRow>|
        {
            &&& rank_sorted(rs)
            &&& rs.to_multiset() == rank_rows(w, e, e.candidates@).to_multiset()
            &&& #[trigger] shown_all(rs) == v
        }
}

/// Whether ranking `a` above `b` is right: more approvals, or as many with
/// fewer past terms in the office, or as many of both with the lower id.
pub open spec fn ranked_in_order(w: World, office: OfficeKind, a: (CitizenId, u32), b: (CitizenId, u32)) -> bool {
    &&& a.1 >= b.1
    &&& a.1 == b.1 ==> terms_of(w, a.0, office) <= terms_of(w, b.0, office)
    &&& a.1 == b.1 && terms_of(w, a.0, office) == terms_of(w, b.0, office) ==> a.0.0 <= b.0.0
}

/// A row whose approvals and terms are the candidate's own.
pub open spec fn true_row(w: World, e: Election, r: RankRow) -> bool {
    r.approvals == approvals_of(e, r.citizen) && r.terms == terms_of(w, r.citizen, e.office)
}

/// Every row of the candidates of `cs` carries the candidate's own
/// approvals and past terms.
proof fn lemma_rank_rows_true(w: World, e: Election, cs: Seq<CitizenId>)
    ensures
        forall|r: RankRow| rank_rows(w, e, cs).contains(r) ==> true_row(w, e, r),
    decreases cs.len(),
{
    if cs.len() > 0 {
        lemma_rank_rows_true(w, e, cs.drop_last());
        let pre = rank_rows(w, e, cs.drop_last());
        assert forall|r: RankRow| rank_rows(w, e, cs).contains(r) implies true_row(w, e, r) by {
            match rank_row(w, e, cs.last()) {
                Some(x) => {
                    let j = choose|j: int| 0 <= j < pre.push(x).len() && pre.push(x)[j] == r;
                    if j < pre.len() {
                        assert(pre[j] == r);
                        assert(pre.contains(r));
                    }
                },
                None => {},
            }
        }
    }
}

/// Any ranking of an election lists its candidates by most approvals, then
/// fewer past terms in the office, then the lower id, each with their own
/// approvals.
pub proof fn lemma_ranking_order(v: Seq<(CitizenId, u32)>, w: World, e: Election)
    requires
        is_ranking(v, w, e),
    ensures
        forall|i: int| 0 <= i < v.len() ==> (#[trigger] v[i]).1 == approvals_of(e, v[i].0),
        forall|i: int, j: int| 0 <= i < j < v.len() ==> ranked_in_order(w, e.office, #[trigger] v[i], #[trigger] v[j]),
{
    let rs = choose|rs: Seq<RankRow>|
        {
            &&& rank_sorted(rs)
            &&& rs.to_multiset() == rank_rows(w, e, e.candidates@).to_multiset()
            &&& #[trigger] shown_all(rs) == v
        };
    let all = rank_rows(w, e, e.candidates@);
    lemma_rank_rows_true(w, e, e.candidates@);
    assert forall|i: int| 0 <= i < rs.len() implies true_row(w, e, #[trigger] rs[i]) by {
        rs.to_multiset_ensures();
        all.to_multiset_ensures();
        assert(rs.contains(rs[i]));
        assert(rs.to_multiset().count(rs[i]) > 0);
        assert(all.contains(rs[i]));
    }
    assert forall|i: int| 0 <= i < v.len() implies (#[trigger] v[i]).1 == approvals_of(e, v[i].0) by {
        assert(v[i] == shown(rs[i]));
        assert(true_row(w, e, rs[i]));
    }
    assert forall|i: int, j: int| 0 <= i < j < v.len() implies ranked_in_order(w, e.office, #[trigger] v[i], #[trigger] v[j]) by {
        assert(v[i] == shown(rs[i]) && v[j] == shown(rs[j]));
        assert(true_row(w, e, rs[i]) && true_row(w, e, rs[j]));
        assert(ranks_before(rs[i], rs[j]));
    }
}

/// How many ballots approve `c`.
fn count_approvals(e: &Election, c: CitizenId) -> (n: u32)
    ensures
        n == approvals_of(*e, c),
{
    let mut n: u64 = 0;
    let mut k: usize = 0;
    while k < e.approvals.len()
        invariant
            k <= e.approvals@.len(),
            n == seq_sum(e.approvals@.take(k as int), approves(c)),
            n <= k,
        decreases e.approvals@.len() - k,
    {
        proof {
            lemma_sum_take_step(e.approvals@, approves(c), k as int);
        }
        let a = &e.approvals[k];
        let mut hit = false;
        let mut j: usize = 0;
        while j < a.approves.len()
            invariant
                j <= a.approves@.len(),
                hit <==> exists|m: int| 0 <= m < j && a.approves@[m] == c,
            decreases a.approves@.len() - j,
        {
            if a.approves[j] == c {
                hit = true;
            }
            j = j + 1;
        }
        proof {
            if hit {
                let m = choose|m: int| 0 <= m < j && a.approves@[m] == c;
                assert(a.approves@.contains(c));
            } else {
                assert(!a.approves@.contains(c));
            }
        }
        if hit {
            n = n + 1;
        }
        k = k + 1;
    }
    proof {
        lemma_sum_take_all(e.approvals@, approves(c));
    }
    if n <= u32::MAX as u64 {
        n as u32
    } else {
        u32::MAX
    }
}

/// The terms `c` has served in `office`.
fn record_terms(world: &World, c: CitizenId, office: OfficeKind) -> (t: u32)
    ensures
        t == terms_of(*world, c, office),
{
    let rs = &world.offices.records;
    let mut k: usize = 0;
    while k < rs.len()
        invariant
            k <= rs@.len(),
            rs@ == world.offices.records@,
            forall|j: int| 0 <= j < k ==> !(record_of(c, office))(#[trigger] rs@[j]),
        decreases rs@.len() - k,
    {
        if rs[k].citizen == c && rs[k].kind == office {
            proof {
                assert((record_of(c, office))(rs@[k as int]));
                lemma_first(rs@, record_of(c, office));
                let j = first(rs@, record_of(c, office))->0;
                if j < k {
                    assert(!(record_of(c, office))(rs@[j]));
                }
            }
            return rs[k].terms;
        }
        k = k + 1;
    }
    proof {
        lemma_first(rs@, record_of(c, office));
    }
    0
}

/// The candidates of `election` in rank order with their approvals: most
/// approvals first, then fewer past terms in this office, then the lower id.
/// Candidates who went dormant since standing are left out.
pub fn ranked(world: &World, election: &Election) -> (v: Vec<(CitizenId, u32)>)
    ensures
        is_ranking(v@, *world, *election),
        forall|i: int| 0 <= i < v@.len() ==> (#[trigger] v@[i]).1 == approvals_of(*election, v@[i].0),
        forall|i: int, j: int|
            0 <= i < j < v@.len() ==> ranked_in_order(*world, election.office, #[trigger] v@[i], #[trigger] v@[j]),
{
    let cs = &election.candidates;
    let mut sorted: Vec<RankRow> = Vec::new();
    let mut k: usize = 0;
    proof {
        assert(cs@.take(0) =~= Seq::<CitizenId>::empty());
    }
    while k < cs.len()
        invariant
            k <= cs@.len(),
            cs@ == election.candidates@,
            rank_sorted(sorted@),
            sorted@.to_multiset() == rank_rows(*world, *election, cs@.take(k as int)).to_multiset(),
            forall|i: int| 0 <= i < sorted@.len() ==> true_row(*world, *election, #[trigger] sorted@[i]),
        decreases cs@.len() - k,
    {
        let c = cs[k];
        proof {
            assert(cs@.take(k + 1).drop_last() =~= cs@.take(k as int));
            assert(cs@.take(k + 1).last() == c);
        }
        let row = match index_of(&world.citizens, c.0) {
            Some(i) => if !world.citizens[i].dormant {
                Some(RankRow { citizen: c, approvals: count_approvals(election, c), terms: record_terms(world, c, election.office) })
            } else {
                None
            },
            None => None,
        };
        assert(row == rank_row(*world, *election, c));
        if let Some(r) = row {
            let mut pos: usize = 0;
            while pos < sorted.len() && ranks_first(&sorted[pos], &r)
                invariant
                    pos <= sorted@.len(),
                    forall|i: int| 0 <= i < pos ==> ranks_before(#[trigger] sorted@[i], r),
                decreases sorted@.len() - pos,
            {
                pos = pos + 1;
            }
            let ghost before = sorted@;
            sorted.insert(pos, r);
            proof {
                vstd::seq_lib::to_multiset_insert(before, pos as int, r);
                vstd::seq_lib::to_multiset_build(rank_rows(*world, *election, cs@.take(k as int)), r);
                assert forall|i: int, j: int| 0 <= i < j < sorted@.len() implies ranks_before(#[trigger] sorted@[i], #[trigger] sorted@[j]) by {
                    if j < pos {
                        assert(sorted@[i] == before[i] && sorted@[j] == before[j]);
                    } else if j == pos {
                        assert(sorted@[i] == before[i]);
                    } else if i < pos {
                        assert(sorted@[i] == before[i] && sorted@[j] == before[j - 1]);
                        assert(ranks_before(before[i], r));
                        assert(!ranks_before(before[pos as int], r));
                        assert(ranks_before(r, before[pos as int]));
                        if j - 1 > pos {
                            assert(ranks_before(before[pos as int], before[j - 1]));
                        }
                    } else if i == pos {
                        assert(sorted@[j] == before[j - 1]);
                        assert(!ranks_before(before[pos as int], r));
                        if j - 1 > pos {
                            assert(ranks_before(before[pos as int], before[j - 1]));
                        }
                    } else {
                        assert(sorted@[i] == before[i - 1] && sorted@[j] == before[j - 1]);
                    }
                }
                assert forall|i: int| 0 <= i < sorted@.len() implies true_row(*world, *election, #[trigger] sorted@[i]) by {
                    if i < pos {
                        assert(sorted@[i] == before[i]);
                    } else if i > pos {
                        assert(sorted@[i] == before[i - 1]);
                    }
                }
            }
        }
        k = k + 1;
    }
    let mut v: Vec<(CitizenId, u32)> = Vec::new();
    let mut j: usize = 0;
    while j < sorted.len()
        invariant
            j <= sorted@.len(),
            v@ == sorted@.take(j as int).map_values(|r: RankRow| shown(r)),
        decreases sorted@.len() - j,
    {
        v.push((sorted[j].citizen, sorted[j].approvals));
        proof {
            assert(sorted@.take(j + 1).map_values(|r: RankRow| shown(r)) =~= sorted@.take(j as int).map_values(
                |r: RankRow| shown(r),
            ).push(shown(sorted@[j as int])));
        }
        j = j + 1;
    }
    proof {
        assert(sorted@.take(sorted@.len() as int) =~= sorted@);
        assert(cs@.take(cs@.len() as int) =~= cs@);
        assert(shown_all(sorted@) == v@);
        assert forall|i: int| 0 <= i < v@.len() implies (#[trigger] v@[i]).1 == approvals_of(*election, v@[i].0) by {
            assert(v@[i] == shown(sorted@[i]));
            assert(true_row(*world, *election, sorted@[i]));
        }
        assert forall|i: int, j: int| 0 <= i < j < v@.len() implies ranked_in_order(
            *world,
            election.office,
            #[trigger] v@[i],
            #[trigger] v@[j],
        ) by {
            assert(v@[i] == shown(sorted@[i]) && v@[j] == shown(sorted@[j]));
            assert(true_row(*world, *election, sorted@[i]) && true_row(*world, *election, sorted@[j]));
            assert(ranks_before(sorted@[i], sorted@[j]));
        }
    }
    v
}

/// Whether row `a` ranks no lower than `b`.
fn ranks_first(a: &RankRow, b: &RankRow) -> (r: bool)
    ensures
        r == ranks_before(*a, *b),
{
    a.approvals > b.approvals || (a.approvals == b.approvals && a.terms < b.terms) || (a.approvals == b.approvals
        && a.terms == b.terms && a.citizen.0 <= b.citizen.0)
}

} // verus!
