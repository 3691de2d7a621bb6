//! Credit: loans between parties, repaid in installments of principal plus
//! simple interest.
use crate::apply::{applied, escrow_released, held_for, releasable};
use crate::event::{Actor, Event};
use crate::command::{acting_citizen, spec_acting_citizen, Envelope, Reject, RejectCode};
use crate::ids::{CitizenId, OrgId};
use crate::kinds::OrgKind;
use crate::table::{contains_key, index_of};
use crate::ids::{ContractId, Tick};
use crate::money::Money;
use crate::sum::{lemma_sum_element_le, lemma_sum_nonneg_terms, seq_sum};
use crate::table::{find, first, lemma_find};
use crate::tick::{
    folded, lemma_folded_append, lemma_folded_none, lemma_folded_step, lemma_money_of_bounded, lemma_payment_bounded,
    lemma_payment_movable, purses, purses_bounded, TickBuilder,
};
use crate::apply::{holder, money_of, spec_money_of};
use crate::housing::{contract_row, lemma_other_rows_kept};
use crate::ledger::{Asset, Party};
use crate::table::{ids_increasing, lemma_find_unique, lemma_update_keeps_ids, Keyed};
use crate::world::{Collateral, Contract, ContractBody, ContractStatus, Offer, OfferBody, Org, Ownership, SharesEscrowed, World};
use crate::message::{put, put_citizen, put_contract, put_dwelling, put_kind, put_money, put_name, put_num, put_org, put_party, put_slot, put_workplace, say};
use vstd::prelude::*;

verus! {

/// Total interest over the term: `principal × rate × term / 10 000`, rounded
/// toward zero as integers divide.
pub open spec fn spec_interest(principal: int, rate_bp: int, term: int) -> int {
    crate::plan::div_toward_zero(principal * rate_bp * term, 10_000)
}

/// The term in cycles, at least one.
pub open spec fn spec_term(term_cycles: u32) -> int {
    if term_cycles == 0 {
        1
    } else {
        term_cycles as int
    }
}

/// Total owed, the installment and the last installment: the installment is
/// the total divided by the term (rounded toward zero), and the last takes the rest.
pub open spec fn spec_schedule(principal: Money, rate_per_cycle_bp: u32, term_cycles: u32) -> (int, int, int) {
    let total = principal.0 + spec_interest(principal.0 as int, rate_per_cycle_bp as int, term_cycles as int);
    let term = spec_term(term_cycles);
    let installment = crate::plan::div_toward_zero(total, term);
    (total, installment, total - installment * (term - 1))
}

/// `a / b` rounded toward zero, for a positive `b`.
pub fn div_trunc(a: i64, b: i64) -> (q: i64)
    requires
        b > 0,
    ensures
        q == crate::plan::div_toward_zero(a as int, b as int),
{
    if a >= 0 {
        a / b
    } else {
        let m = -(a as i128);
        proof {
            assert(m / (b as i128) <= m) by (nonlinear_arith)
                requires
                    m >= 0,
                    b >= 1,
            ;
        }
        (-(m / (b as i128))) as i64
    }
}

/// What a term's installments reach: the installment times the cycles
/// before the last lies between zero and the total, on the total's side.
proof fn lemma_installments_within(total: int, term: int)
    requires
        term >= 1,
    ensures
        total >= 0 ==> 0 <= crate::plan::div_toward_zero(total, term) * (term - 1) <= total,
        total < 0 ==> total <= crate::plan::div_toward_zero(total, term) * (term - 1) <= 0,
{
    if total >= 0 {
        let q = total / term;
        assert(0 <= q * (term - 1) <= total) by (nonlinear_arith)
            requires
                q == total / term,
                total >= 0,
                term >= 1,
        ;
    } else {
        let q = (-total) / term;
        assert(0 <= q * (term - 1) <= -total) by (nonlinear_arith)
            requires
                q == (-total) / term,
                -total >= 0,
                term >= 1,
        ;
        assert((-q) * (term - 1) == -(q * (term - 1))) by (nonlinear_arith);
    }
}

/// Total interest and the installment schedule: the interest is
/// `principal × rate × term / 10 000`, the installment the total over the
/// term, and the last installment takes the remainder. A schedule can be
/// worked out wherever its products and total fit an amount.
pub fn schedule(principal: Money, rate_per_cycle_bp: u32, term_cycles: u32) -> (r: (Money, Money, Money))
    requires
        i64::MIN <= principal.0 * rate_per_cycle_bp <= i64::MAX,
        i64::MIN <= principal.0 * rate_per_cycle_bp * term_cycles <= i64::MAX,
        i64::MIN <= principal.0 + spec_interest(principal.0 as int, rate_per_cycle_bp as int, term_cycles as int)
            <= i64::MAX,
    ensures
        r.0.0 == spec_schedule(principal, rate_per_cycle_bp, term_cycles).0,
        r.1.0 == spec_schedule(principal, rate_per_cycle_bp, term_cycles).1,
        r.2.0 == spec_schedule(principal, rate_per_cycle_bp, term_cycles).2,
{
    let p = principal.0;
    let pr = p * rate_per_cycle_bp as i64;
    let prod: i64 = pr * term_cycles as i64;
    let interest = div_trunc(prod, 10_000);
    proof {
        assert(interest == spec_interest(p as int, rate_per_cycle_bp as int, term_cycles as int));
    }
    let total = p + interest;
    let term: i64 = if term_cycles == 0 {
        1
    } else {
        term_cycles as i64
    };
    let installment = div_trunc(total, term);
    proof {
        lemma_installments_within(total as int, term as int);
    }
    let last = total - installment * (term - 1);
    (Money(total), Money(installment), Money(last))
}

/// The installments of a schedule sum to its total, and the last exceeds the
/// others by less than the term: the remainder of the division.
pub proof fn lemma_schedule_sums(principal: Money, rate_per_cycle_bp: u32, term_cycles: u32)
    requires
        principal.0 >= 0,
    ensures
        ({
            let (total, installment, last) = spec_schedule(principal, rate_per_cycle_bp, term_cycles);
            &&& installment * (spec_term(term_cycles) - 1) + last == total
            &&& 0 <= last - installment < spec_term(term_cycles)
        }),
{
    let (total, installment, last) = spec_schedule(principal, rate_per_cycle_bp, term_cycles);
    let term = spec_term(term_cycles);
    let p = principal.0 as int;
    assert(p * rate_per_cycle_bp * term_cycles >= 0) by (nonlinear_arith)
        requires p >= 0, rate_per_cycle_bp >= 0, term_cycles >= 0;
    assert(total >= 0);
    assert(last - installment == total % term) by (nonlinear_arith)
        requires installment == total / term, last == total - installment * (term - 1), term >= 1;
}

/// Whether a contract pledges `c` and is not over.
pub open spec fn pledges(k: Contract, c: Collateral) -> bool {
    k.status != ContractStatus::Ended && match k.body {
        ContractBody::Credit { collateral: Some(x), .. } => x == c,
        _ => false,
    }
}

/// Whether a dwelling or shares are already pledged under an open loan.
pub open spec fn spec_pledged(w: World, c: Collateral) -> bool {
    exists|j: int| 0 <= j < w.contracts@.len() && pledges(#[trigger] w.contracts@[j], c)
}

/// Whether some contract in the list pledges `c`.
fn pledged_in(ks: &Vec<Contract>, c: Collateral) -> (b: bool)
    ensures
        b == exists|j: int| 0 <= j < ks@.len() && pledges(#[trigger] ks@[j], c),
{
    let mut i: usize = 0;
    while i < ks.len()
        invariant
            i <= ks@.len(),
            forall|j: int| 0 <= j < i ==> !pledges(#[trigger] ks@[j], c),
        decreases ks@.len() - i,
    {
        let k = ks[i];
        let hit = k.status != ContractStatus::Ended && match k.body {
            ContractBody::Credit { collateral: Some(x), .. } => x == c,
            _ => false,
        };
        if hit {
            assert(pledges(ks@[i as int], c));
            return true;
        }
        i = i + 1;
    }
    false
}

/// Whether the collateral is already pledged under an open loan.
pub fn pledged(world: &World, collateral: Collateral) -> (b: bool)
    ensures
        b == spec_pledged(*world, collateral),
{
    pledged_in(&world.contracts, collateral)
}

/// An escrow entry's shares, as a summand.
pub open spec fn escrowed_qty() -> spec_fn(SharesEscrowed) -> int {
    |e: SharesEscrowed| e.qty as int
}

/// Every share held in escrow, whatever its org.
pub open spec fn all_escrowed(w: World) -> int {
    seq_sum(w.share_escrow@, escrowed_qty())
}

/// Each registry line of `o` has room for `t` more shares.
pub open spec fn line_room(o: Org, t: int) -> bool {
    match o.ownership {
        Ownership::Shares { holdings, .. } => forall|k: int|
            0 <= k < holdings@.len() ==> (#[trigger] holdings@[k]).qty + t <= u64::MAX,
        _ => true,
    }
}

/// Every registry line has room for all the shares in escrow: releasing
/// escrowed shares never overflows a line.
pub open spec fn escrow_fits(w: World) -> bool {
    &&& all_escrowed(w) <= u64::MAX
    &&& forall|i: int| 0 <= i < w.orgs@.len() ==> line_room(#[trigger] w.orgs@[i], all_escrowed(w))
}

/// Where every line has room for all escrowed shares, any release fits.
proof fn lemma_escrow_fits_releasable(w: World, id: ContractId, org: Option<crate::ids::OrgId>)
    requires
        escrow_fits(w),
    ensures
        releasable(w, id, org),
{
    crate::table::lemma_first(w.share_escrow@, held_for(id));
    if let Some(e) = first(w.share_escrow@, held_for(id)) {
        assert forall|k: int| 0 <= k < w.share_escrow@.len() implies 0 <= #[trigger] escrowed_qty()(w.share_escrow@[k]) by {}
        lemma_sum_element_le(w.share_escrow@, escrowed_qty(), e);
        let q = w.share_escrow@[e].qty;
        assert forall|i: int| 0 <= i < w.orgs@.len() implies line_room(#[trigger] w.orgs@[i], q as int) by {
            assert(line_room(w.orgs@[i], all_escrowed(w)));
        }
    }
}

/// Escrow and registries as they were keep their room.
proof fn lemma_escrow_fits_kept(o: World, n: World)
    requires
        escrow_fits(o),
        n.share_escrow == o.share_escrow,
        n.orgs@.len() == o.orgs@.len(),
        forall|i: int| 0 <= i < o.orgs@.len() ==> (#[trigger] n.orgs@[i]).ownership == o.orgs@[i].ownership,
    ensures
        escrow_fits(n),
{
    assert forall|i: int| 0 <= i < n.orgs@.len() implies line_room(#[trigger] n.orgs@[i], all_escrowed(n)) by {
        assert(line_room(o.orgs@[i], all_escrowed(o)));
    }
}

/// Releasing escrowed shares moves them from escrow to one line: every line
/// keeps its room for what is still in escrow.
proof fn lemma_escrow_fits_released(o: World, n: World, id: ContractId, party: crate::ledger::Party, org: Option<crate::ids::OrgId>)
    requires
        escrow_fits(o),
        escrow_released(o, n, id, party, org),
    ensures
        escrow_fits(n),
{
    crate::table::lemma_first(o.share_escrow@, held_for(id));
    if let Some(e) = first(o.share_escrow@, held_for(id)) {
        let entry = o.share_escrow@[e];
        let q = entry.qty as int;
        crate::sum::lemma_sum_remove(o.share_escrow@, escrowed_qty(), e);
        assert(all_escrowed(n) == all_escrowed(o) - q);
        assert forall|k: int| 0 <= k < o.share_escrow@.len() implies 0 <= #[trigger] escrowed_qty()(o.share_escrow@[k]) by {}
        lemma_sum_element_le(o.share_escrow@, escrowed_qty(), e);
        let target = match org {
            Some(g) => g,
            None => entry.org,
        };
        match crate::shares::spec_holder_of(party, target) {
            Some(h) => {
                if let Some(i) = find(o.orgs@, target.0) {
                    assert forall|j: int| 0 <= j < n.orgs@.len() implies line_room(#[trigger] n.orgs@[j], all_escrowed(n)) by {
                        assert(line_room(o.orgs@[j], all_escrowed(o)));
                        if j == i {
                            if let Ownership::Shares { holdings, .. } = o.orgs@[i].ownership {
                                let hs = holdings@;
                                crate::table::lemma_first(hs, crate::shares::line_of(h));
                                let nh = crate::apply::credited_line(hs, h, entry.qty);
                                assert forall|k: int| 0 <= k < nh.len() implies (#[trigger] nh[k]).qty + all_escrowed(n)
                                    <= u64::MAX by {
                                    if k < hs.len() {
                                        assert(hs[k].qty + all_escrowed(o) <= u64::MAX);
                                    }
                                }
                            }
                        }
                    }
                } else {
                    assert forall|j: int| 0 <= j < n.orgs@.len() implies line_room(#[trigger] n.orgs@[j], all_escrowed(n)) by {
                        assert(line_room(o.orgs@[j], all_escrowed(o)));
                    }
                }
            },
            None => {
                assert forall|j: int| 0 <= j < n.orgs@.len() implies line_room(#[trigger] n.orgs@[j], all_escrowed(n)) by {
                    assert(line_room(o.orgs@[j], all_escrowed(o)));
                }
            },
        }
    }
}

/// What defaulting on an active loan with a missed installment emits.
pub open spec fn loan_default(k: Contract) -> Seq<Event> {
    if k.status == ContractStatus::Active {
        match k.body {
            ContractBody::Credit { missed, collateral, .. } => if missed {
                seq![Event::CreditDefaulted { contract: k.id, collateral_seized: collateral }]
            } else {
                Seq::empty()
            },
            _ => Seq::empty(),
        }
    } else {
        Seq::empty()
    }
}

/// What defaulting on the loans of `ks` emits, in order.
pub open spec fn loan_defaults(ks: Seq<Contract>) -> Seq<Event>
    decreases ks.len(),
{
    if ks.len() == 0 {
        Seq::empty()
    } else {
        loan_defaults(ks.drop_last()) + loan_default(ks.last())
    }
}

/// What the first tick of a cycle defaults: loans whose installment was missed at the last cycle's end.
pub open spec fn defaults_due(w: World, tick: Tick) -> Seq<Event> {
    if crate::housing::opens_cycle(w, tick) {
        loan_defaults(w.contracts@)
    } else {
        Seq::empty()
    }
}

/// Default on one loan.
fn default_one(b: &mut TickBuilder, id: ContractId, collateral: Option<Collateral>, Ghost(w0): Ghost<World>, Ghost(done): Ghost<Seq<Event>>)
    requires
        old(b).world.wf(),
        escrow_fits(old(b).world),
        folded(w0, done, old(b).world),
    ensures
        final(b).world.wf(),
        escrow_fits(final(b).world),
        final(b).tick == old(b).tick,
        final(b).cycle == old(b).cycle,
        final(b).events@ == old(b).events@.push(Event::CreditDefaulted { contract: id, collateral_seized: collateral }),
        folded(w0, done.push(Event::CreditDefaulted { contract: id, collateral_seized: collateral }), final(b).world),
{
    let ghost before = b.world;
    if let Some(Collateral::Shares(org, _)) = collateral {
        proof {
            lemma_escrow_fits_releasable(before, id, Some(org));
        }
    }
    let e = Event::CreditDefaulted { contract: id, collateral_seized: collateral };
    let ghost g = e;
    b.emit(e);
    proof {
        lemma_folded_step(w0, done, before, b.world, g);
        let n = b.world;
        let (m1, m2) = choose|m1: World, m2: World| crate::apply::defaulted_via(before, m1, m2, n, id, collateral);
        if let Some(i) = find(before.contracts@, id.0) {
            lemma_escrow_fits_kept(before, m1);
            match collateral {
                Some(Collateral::Shares(org, _)) => {
                    lemma_escrow_fits_released(m1, m2, id, before.contracts@[i].parties.0, Some(org));
                },
                _ => {
                    lemma_escrow_fits_kept(m1, m2);
                },
            }
            lemma_escrow_fits_kept(m2, n);
        }
    }
}

/// Phase 7, first tick of a cycle: default on each active loan whose
/// installment was missed at the last cycle's end, seizing its collateral.
pub fn phase_7_defaults(b: &mut TickBuilder)
    requires
        old(b).world.wf(),
        escrow_fits(old(b).world),
    ensures
        final(b).world.wf(),
        escrow_fits(final(b).world),
        final(b).tick == old(b).tick,
        final(b).cycle == old(b).cycle,
        final(b).events@ == old(b).events@ + defaults_due(old(b).world, old(b).tick),
        folded(old(b).world, defaults_due(old(b).world, old(b).tick), final(b).world),
{
    let ghost w0 = b.world;
    let ghost start = b.events@;
    proof {
        lemma_folded_none(w0);
        assert(start + Seq::<Event>::empty() =~= start);
    }
    if b.tick % b.world.params.time.ticks_per_cycle != 0 {
        return;
    }
    let ks = crate::world::copy_list(&b.world.contracts);
    proof {
        assert(ks@.take(0) =~= Seq::<Contract>::empty());
    }
    let mut k: usize = 0;
    while k < ks.len()
        invariant
            k <= ks@.len(),
            ks@ == w0.contracts@,
            b.world.wf(),
            escrow_fits(b.world),
            b.tick == old(b).tick,
            b.cycle == old(b).cycle,
            b.events@ == start + loan_defaults(ks@.take(k as int)),
            folded(w0, loan_defaults(ks@.take(k as int)), b.world),
        decreases ks@.len() - k,
    {
        let c = ks[k];
        let ghost done = loan_defaults(ks@.take(k as int));
        proof {
            assert(ks@.take(k + 1).drop_last() =~= ks@.take(k as int));
            assert(ks@.take(k + 1).last() == c);
        }
        let due = if c.status == ContractStatus::Active {
            match c.body {
                ContractBody::Credit { missed, collateral, .. } => if missed {
                    Some(collateral)
                } else {
                    None
                },
                _ => None,
            }
        } else {
            None
        };
        match due {
            Some(collateral) => {
                default_one(b, c.id, collateral, Ghost(w0), Ghost(done));
                proof {
                    assert(loan_default(c) =~= seq![Event::CreditDefaulted { contract: c.id, collateral_seized: collateral }]);
                    assert(loan_defaults(ks@.take(k + 1)) =~= done.push(Event::CreditDefaulted { contract: c.id, collateral_seized: collateral }));
                    assert(b.events@ =~= start + loan_defaults(ks@.take(k + 1)));
                }
            },
            None => {
                proof {
                    assert(loan_default(c) =~= Seq::<Event>::empty());
                    assert(loan_defaults(ks@.take(k + 1)) =~= done);
                }
            },
        }
        k = k + 1;
    }
    proof {
        assert(ks@.take(ks@.len() as int) =~= ks@);
    }
}

/// A loan with installments left, and what the cycle's end needs of it.
#[derive(Clone, Copy, Debug, PartialEq, Eq, Structural)]
pub struct DueLoan {
    pub id: ContractId,
    pub lender: Party,
    pub borrower: Party,
    pub principal: Money,
    pub rate_per_cycle_bp: u32,
    pub installment: Money,
    pub installments_left: u32,
    /// The loan's term, or its installments left where it has none.
    pub term_cycles: u32,
}

/// An active loan's installment due, if it has installments left.
pub open spec fn due_loan(k: Contract) -> Option<DueLoan> {
    if k.status == ContractStatus::Active {
        match k.body {
            ContractBody::Credit { principal, rate_per_cycle_bp, installment, installments_left, .. } => if installments_left
                > 0 {
                Some(
                    DueLoan {
                        id: k.id,
                        lender: k.parties.0,
                        borrower: k.parties.1,
                        principal,
                        rate_per_cycle_bp,
                        installment,
                        installments_left,
                        term_cycles: match k.term_cycles {
                            Some(t) => t,
                            None => installments_left,
                        },
                    },
                )
            } else {
                None
            },
            _ => None,
        }
    } else {
        None
    }
}

/// The loans among `cs` with installments due, in order.
pub open spec fn due_loans(cs: Seq<Contract>) -> Seq<DueLoan>
    decreases cs.len(),
{
    if cs.len() == 0 {
        Seq::empty()
    } else {
        match due_loan(cs.last()) {
            Some(l) => due_loans(cs.drop_last()).push(l),
            None => due_loans(cs.drop_last()),
        }
    }
}

/// The loans of a world with installments due, in contract order.
pub fn loans_due(world: &World) -> (v: Vec<DueLoan>)
    ensures
        v@ == due_loans(world.contracts@),
{
    let cs = &world.contracts;
    let mut v: Vec<DueLoan> = Vec::new();
    let mut i: usize = 0;
    while i < cs.len()
        invariant
            i <= cs@.len(),
            cs@ == world.contracts@,
            v@ == due_loans(cs@.take(i as int)),
        decreases cs@.len() - i,
    {
        proof {
            assert(cs@.take(i + 1).drop_last() =~= cs@.take(i as int));
        }
        let k = &cs[i];
        if k.status == ContractStatus::Active {
            match k.body {
                ContractBody::Credit { principal, rate_per_cycle_bp, installment, installments_left, .. } => {
                    if installments_left > 0 {
                        let term = match k.term_cycles {
                            Some(t) => t,
                            None => installments_left,
                        };
                        v.push(
                            DueLoan {
                                id: k.id,
                                lender: k.parties.0,
                                borrower: k.parties.1,
                                principal,
                                rate_per_cycle_bp,
                                installment,
                                installments_left,
                                term_cycles: term,
                            },
                        );
                    }
                },
                _ => {},
            }
        }
        i = i + 1;
    }
    proof {
        assert(cs@.take(cs@.len() as int) =~= cs@);
    }
    v
}

/// Row `i` of `cs` reads as the loan `l`.
pub open spec fn loan_at(cs: Seq<Contract>, i: int, l: DueLoan) -> bool {
    0 <= i < cs.len() && due_loan(cs[i]) == Some(l)
}

/// Some row of `cs` reads as the loan `l`.
pub open spec fn loan_from_row(cs: Seq<Contract>, l: DueLoan) -> bool {
    exists|i: int| #[trigger] loan_at(cs, i, l)
}

/// Each due loan comes from a row, and their ids increase.
proof fn lemma_due_loans_rows(cs: Seq<Contract>)
    requires
        ids_increasing(cs),
    ensures
        forall|j: int| 0 <= j < due_loans(cs).len() ==> #[trigger] loan_from_row(cs, due_loans(cs)[j]),
        forall|a: int, c: int|
            0 <= a < c < due_loans(cs).len() ==> (#[trigger] due_loans(cs)[a]).id.0 < (#[trigger] due_loans(cs)[c]).id.0,
    decreases cs.len(),
{
    if cs.len() > 0 {
        let t = cs.drop_last();
        assert(ids_increasing(t)) by {
            assert forall|a: int, c: int| 0 <= a < c < t.len() implies t[a].key_of() < t[c].key_of() by {
                assert(t[a] == cs[a] && t[c] == cs[c]);
            }
        }
        lemma_due_loans_rows(t);
        let ls = due_loans(cs);
        let lt = due_loans(t);
        assert forall|j: int| 0 <= j < lt.len() implies #[trigger] loan_from_row(cs, lt[j]) by {
            assert(loan_from_row(t, lt[j]));
            let i = choose|i: int| loan_at(t, i, lt[j]);
            assert(t[i] == cs[i]);
            assert(loan_at(cs, i, lt[j]));
        }
        assert forall|j: int| 0 <= j < lt.len() implies (#[trigger] lt[j]).id.0 < cs.last().id.0 by {
            assert(loan_from_row(t, lt[j]));
            let i = choose|i: int| loan_at(t, i, lt[j]);
            assert(t[i] == cs[i]);
            assert(cs[i].key_of() < cs[cs.len() - 1].key_of());
        }
        match due_loan(cs.last()) {
            Some(l) => {
                assert(ls == lt.push(l));
                assert(loan_at(cs, cs.len() - 1, l));
                assert forall|j: int| 0 <= j < ls.len() implies #[trigger] loan_from_row(cs, ls[j]) by {
                    if j < lt.len() {
                        assert(ls[j] == lt[j]);
                        assert(loan_from_row(cs, lt[j]));
                    } else {
                        assert(loan_at(cs, cs.len() - 1, ls[j]));
                    }
                }
                assert forall|a: int, c: int| 0 <= a < c < ls.len() implies (#[trigger] ls[a]).id.0 < (#[trigger] ls[c]).id.0 by {
                    assert(ls[a] == lt[a]);
                    if c < lt.len() {
                        assert(ls[c] == lt[c]);
                    }
                }
            },
            None => {
                assert(ls == lt);
            },
        }
    }
}

/// `l` is how the world's row of contract `l.id` reads as a due loan.
pub open spec fn loan_in(w: World, l: DueLoan) -> bool {
    contract_row(w, l.id) matches Some(k) && due_loan(k) == Some(l)
}

/// Every due loan of a world reads as its row, and their ids increase.
proof fn lemma_loans_in(w: World)
    requires
        w.wf(),
    ensures
        forall|j: int| 0 <= j < due_loans(w.contracts@).len() ==> loan_in(w, #[trigger] due_loans(w.contracts@)[j]),
        forall|a: int, c: int|
            0 <= a < c < due_loans(w.contracts@).len() ==> (#[trigger] due_loans(w.contracts@)[a]).id.0 < (
            #[trigger] due_loans(w.contracts@)[c]).id.0,
{
    let cs = w.contracts@;
    lemma_due_loans_rows(cs);
    assert forall|j: int| 0 <= j < due_loans(cs).len() implies loan_in(w, #[trigger] due_loans(cs)[j]) by {
        assert(loan_from_row(cs, due_loans(cs)[j]));
        let i = choose|i: int| loan_at(cs, i, due_loans(cs)[j]);
        lemma_find_unique(cs, i);
    }
}

/// Whether a loan's schedule can be worked out (the principal is not
/// negative and the interest stays in range) and its installment is not negative.
pub open spec fn loan_payable(l: DueLoan) -> bool {
    &&& l.principal.0 >= 0
    &&& l.principal.0 * l.rate_per_cycle_bp <= i64::MAX
    &&& l.principal.0 * l.rate_per_cycle_bp * l.term_cycles <= i64::MAX
    &&& l.principal.0 + spec_interest(l.principal.0 as int, l.rate_per_cycle_bp as int, l.term_cycles as int) <= i64::MAX
    &&& l.installment.0 >= 0
}

/// What a loan's borrower owes this cycle: the last installment of the
/// schedule (which takes the remainder) or the regular one.
pub open spec fn amount_due(l: DueLoan) -> int {
    if l.installments_left == 1 {
        spec_schedule(l.principal, l.rate_per_cycle_bp, l.term_cycles).2
    } else {
        l.installment.0 as int
    }
}

/// Whether the borrower has what is due.
pub open spec fn can_repay(w: World, l: DueLoan) -> bool {
    spec_money_of(w, l.borrower).0 >= amount_due(l)
}

/// What the cycle's end emits for a loan: the installment where the
/// borrower has it (`paid`), then the repayment after the last one;
/// a missed installment where not.
pub open spec fn loan_step(l: DueLoan, paid: bool) -> Seq<Event> {
    if paid {
        seq![
            Event::CreditInstallment {
                contract: l.id,
                amount: Money(amount_due(l) as i64),
                remaining: (l.installments_left - 1) as u32,
            },
        ] + if l.installments_left == 1 {
            seq![Event::CreditRepaid { contract: l.id }]
        } else {
            Seq::empty()
        }
    } else {
        seq![Event::CreditMissed { contract: l.id, owed: Money(amount_due(l) as i64) }]
    }
}

/// What a loan's due amount is: not negative and within range.
proof fn lemma_amount_due_range(l: DueLoan)
    requires
        loan_payable(l),
    ensures
        0 <= amount_due(l) <= i64::MAX,
{
    lemma_schedule_sums(l.principal, l.rate_per_cycle_bp, l.term_cycles);
    let (total, installment, last) = spec_schedule(l.principal, l.rate_per_cycle_bp, l.term_cycles);
    let p = l.principal.0 as int;
    assert(p * l.rate_per_cycle_bp * l.term_cycles >= 0) by (nonlinear_arith)
        requires
            p >= 0,
    ;
    assert(total >= 0);
    let term = spec_term(l.term_cycles);
    assert(installment >= 0) by (nonlinear_arith)
        requires
            installment == total / term,
            total >= 0,
            term >= 1,
    ;
    assert(installment * (term - 1) >= 0) by (nonlinear_arith)
        requires
            installment >= 0,
            term >= 1,
    ;
}

/// A payment's effect on the orgs: each keeps its registry.
proof fn lemma_payment_keeps_registries(o: World, n: World, from: Party, to: Party, a: Money)
    requires
        o.wf(),
        crate::apply::moved(o, n, holder(from), holder(to), Asset::Money(a)),
    ensures
        n.share_escrow == o.share_escrow,
        n.orgs@.len() == o.orgs@.len(),
        forall|i: int| 0 <= i < o.orgs@.len() ==> (#[trigger] n.orgs@[i]).ownership == o.orgs@[i].ownership,
        forall|i: int| 0 <= i < o.orgs@.len() ==> (#[trigger] n.orgs@[i]).id == o.orgs@[i].id,
{
    let mid = choose|mid: World| crate::apply::moved_via(o, mid, n, holder(from), holder(to), Asset::Money(a));
    match from {
        Party::Org(id) => {
            lemma_find(o.orgs@, id.0);
        },
        Party::Citizen(_) => {},
    }
    assert(mid.orgs@.len() == o.orgs@.len());
    assert(forall|i: int| 0 <= i < o.orgs@.len() ==> (#[trigger] mid.orgs@[i]).ownership == o.orgs@[i].ownership && mid.orgs@[i].id == o.orgs@[i].id);
    match to {
        Party::Org(id) => {
            lemma_find(mid.orgs@, id.0);
        },
        Party::Citizen(_) => {},
    }
}

/// Releasing escrowed shares moves no money: every purse is as it was.
proof fn lemma_release_purses(o: World, n: World, id: ContractId, party: Party, org: Option<crate::ids::OrgId>)
    requires
        purses_bounded(o),
        escrow_released(o, n, id, party, org),
    ensures
        purses_bounded(n),
{
    crate::table::lemma_first(o.share_escrow@, held_for(id));
    if let Some(e) = first(o.share_escrow@, held_for(id)) {
        let entry = o.share_escrow@[e];
        let target = match org {
            Some(g) => g,
            None => entry.org,
        };
        if let Some(h) = crate::shares::spec_holder_of(party, target) {
            lemma_find(o.orgs@, target.0);
            if let Some(i) = find(o.orgs@, target.0) {
                let b = n.orgs@[i];
                assert(n.orgs@ =~= o.orgs@.update(i, b));
                crate::sum::lemma_sum_update(o.orgs@, crate::ledger::treasury_of(), i, b);
                assert forall|k: int| 0 <= k < n.orgs@.len() implies #[trigger] n.orgs@[k].treasury.0 >= 0 by {
                    assert(o.orgs@[k].treasury.0 >= 0);
                }
            }
        }
    }
}

/// A loan's events touch no other contract's row.
proof fn lemma_loan_rows_kept(o: World, n: World, id: ContractId, e: Event)
    requires
        o.wf(),
        applied(o, n, e),
        match e {
            Event::CreditInstallment { contract, .. } => contract == id,
            Event::CreditMissed { contract, .. } => contract == id,
            Event::CreditRepaid { contract } => contract == id,
            _ => false,
        },
    ensures
        forall|x: ContractId| x != id ==> #[trigger] contract_row(n, x) == contract_row(o, x),
{
    lemma_find(o.contracts@, id.0);
    match e {
        Event::CreditInstallment { contract, amount, remaining } => {
            let mid = choose|mid: World| crate::apply::paid_under_via(o, mid, n, contract, false, remaining, amount);
            if let Some(i) = find(o.contracts@, id.0) {
                lemma_other_rows_kept(o, mid, i, crate::apply::settled(o.contracts@[i], false, remaining));
                let m2 = choose|m2: World|
                    crate::apply::moved_via(
                        mid,
                        m2,
                        n,
                        holder(o.contracts@[i].parties.1),
                        holder(o.contracts@[i].parties.0),
                        Asset::Money(amount),
                    );
                assert(n.contracts == mid.contracts);
                assert forall|x: ContractId| x != id implies #[trigger] contract_row(n, x) == contract_row(o, x) by {
                    assert(contract_row(n, x) == contract_row(mid, x));
                }
            }
        },
        Event::CreditMissed { contract, .. } => {
            if let Some(i) = find(o.contracts@, id.0) {
                lemma_other_rows_kept(o, n, i, crate::apply::credit_missed(o.contracts@[i]));
            }
        },
        Event::CreditRepaid { contract } => {
            let mid = choose|mid: World| crate::apply::repaid_via(o, mid, n, contract);
            if let Some(i) = find(o.contracts@, id.0) {
                lemma_other_rows_kept(o, mid, i, crate::apply::ended(o.contracts@[i]));
                crate::table::lemma_first(mid.share_escrow@, held_for(id));
                assert(n.contracts == mid.contracts);
                assert forall|x: ContractId| x != id implies #[trigger] contract_row(n, x) == contract_row(o, x) by {
                    assert(contract_row(n, x) == contract_row(mid, x));
                }
            }
        },
        _ => {},
    }
}

/// Charge one loan's installment.
fn charge_loan(b: &mut TickBuilder, l: DueLoan)
    requires
        old(b).world.wf(),
        purses_bounded(old(b).world),
        escrow_fits(old(b).world),
        loan_in(old(b).world, l),
        loan_payable(l),
    ensures
        final(b).world.wf(),
        purses_bounded(final(b).world),
        escrow_fits(final(b).world),
        final(b).tick == old(b).tick,
        final(b).cycle == old(b).cycle,
        final(b).events@ == old(b).events@ + loan_step(l, can_repay(old(b).world, l)),
        folded(old(b).world, loan_step(l, can_repay(old(b).world, l)), final(b).world),
        forall|x: ContractId| x != l.id ==> #[trigger] contract_row(final(b).world, x) == contract_row(old(b).world, x),
{
    let ghost w0 = b.world;
    proof {
        lemma_folded_none(w0);
        lemma_find(w0.contracts@, l.id.0);
        lemma_amount_due_range(l);
    }
    let ghost i = find(w0.contracts@, l.id.0)->0;
    let due: i64 = if l.installments_left == 1 {
        let (_, _, last) = schedule(l.principal, l.rate_per_cycle_bp, l.term_cycles);
        last.0
    } else {
        l.installment.0
    };
    assert(due == amount_due(l));
    let have = money_of(&b.world, l.borrower);
    if have.0 >= due {
        proof {
            lemma_money_of_bounded(w0, l.borrower);
            lemma_payment_movable(w0, l.borrower, l.lender, Money(due));
        }
        let e = Event::CreditInstallment { contract: l.id, amount: Money(due), remaining: l.installments_left - 1 };
        let ghost g = e;
        b.emit(e);
        let ghost n1 = b.world;
        proof {
            lemma_folded_step(w0, Seq::empty(), w0, n1, g);
            let rem = (l.installments_left - 1) as u32;
            let paid = Money(due);
            let mid = choose|mid: World| crate::apply::paid_under_via(w0, mid, n1, l.id, false, rem, paid);
            let x = crate::apply::settled(w0.contracts@[i], false, rem);
            lemma_update_keeps_ids(w0.contracts@, i, x);
            assert(solvent_same(w0, mid));
            assert(spec_money_of(mid, l.borrower) == spec_money_of(w0, l.borrower));
            lemma_payment_bounded(mid, n1, l.borrower, l.lender, Money(due));
            lemma_escrow_fits_kept(w0, mid);
            lemma_payment_keeps_registries(mid, n1, l.borrower, l.lender, Money(due));
            lemma_escrow_fits_kept(mid, n1);
            lemma_loan_rows_kept(w0, n1, l.id, g);
        }
        if l.installments_left == 1 {
            proof {
                lemma_escrow_fits_releasable(n1, l.id, None);
            }
            let e2 = Event::CreditRepaid { contract: l.id };
            let ghost g2 = e2;
            b.emit(e2);
            proof {
                lemma_folded_step(w0, Seq::empty().push(g), n1, b.world, g2);
                let n2 = b.world;
                let mid2 = choose|mid2: World| crate::apply::repaid_via(n1, mid2, n2, l.id);
                lemma_find(n1.contracts@, l.id.0);
                if let Some(j) = find(n1.contracts@, l.id.0) {
                    lemma_update_keeps_ids(n1.contracts@, j, crate::apply::ended(n1.contracts@[j]));
                    assert(solvent_same(n1, mid2));
                    lemma_escrow_fits_kept(n1, mid2);
                    lemma_escrow_fits_released(mid2, n2, l.id, n1.contracts@[j].parties.1, None);
                    lemma_release_purses(mid2, n2, l.id, n1.contracts@[j].parties.1, None);
                }
                lemma_loan_rows_kept(n1, n2, l.id, g2);
                assert forall|x: ContractId| x != l.id implies #[trigger] contract_row(n2, x) == contract_row(w0, x) by {
                    assert(contract_row(n1, x) == contract_row(w0, x));
                }
                assert(Seq::<Event>::empty().push(g).push(g2) =~= loan_step(l, true));
                assert(old(b).events@.push(g).push(g2) =~= old(b).events@ + loan_step(l, true));
            }
        } else {
            proof {
                assert(Seq::<Event>::empty().push(g) =~= loan_step(l, true));
            }
        }
    } else {
        let e = Event::CreditMissed { contract: l.id, owed: Money(due) };
        let ghost g = e;
        b.emit(e);
        proof {
            lemma_folded_step(w0, Seq::empty(), w0, b.world, g);
            lemma_loan_rows_kept(w0, b.world, l.id, g);
            assert(solvent_same(w0, b.world));
            lemma_escrow_fits_kept(w0, b.world);
            assert(Seq::<Event>::empty().push(g) =~= loan_step(l, false));
        }
    }
}

/// `n` differs from `o` at most in its contracts.
pub open spec fn solvent_same(o: World, n: World) -> bool {
    &&& n.citizens == o.citizens
    &&& n.orgs == o.orgs
    &&& n.share_escrow == o.share_escrow
    &&& purses(n) == purses(o)
    &&& (purses_bounded(o) ==> purses_bounded(n))
}

/// The events the cycle's end emits for the loans `ls`, where `ws[k]` is
/// the world as loan `k` comes up.
pub open spec fn loan_events(ls: Seq<DueLoan>, ws: Seq<World>) -> Seq<Event>
    decreases ls.len(),
{
    if ls.len() == 0 {
        Seq::empty()
    } else {
        loan_events(ls.drop_last(), ws) + loan_step(ls.last(), can_repay(ws[ls.len() - 1], ls.last()))
    }
}

/// The events for `ls` read only the worlds its loans come up in.
proof fn lemma_loan_events_prefix(ls: Seq<DueLoan>, ws: Seq<World>, vs: Seq<World>)
    requires
        forall|k: int| 0 <= k < ls.len() ==> ws[k] == vs[k],
    ensures
        loan_events(ls, ws) == loan_events(ls, vs),
    decreases ls.len(),
{
    if ls.len() > 0 {
        lemma_loan_events_prefix(ls.drop_last(), ws, vs);
    }
}

/// The loans `ls` charged one after another from `o` to `n`, emitting `es`,
/// with `ws` the world as each loan comes up and, last, `n`.
pub open spec fn loans_run_of(o: World, ls: Seq<DueLoan>, ws: Seq<World>, es: Seq<Event>, n: World) -> bool {
    &&& ws.len() == ls.len() + 1
    &&& ws[0] == o
    &&& ws.last() == n
    &&& es == loan_events(ls, ws)
    &&& forall|k: int| 0 <= k < ls.len() ==> folded(#[trigger] ws[k], loan_step(ls[k], can_repay(ws[k], ls[k])), ws[k + 1])
}

/// The loans `ls` charged one after another from `o` to `n`, emitting `es`:
/// each installment is paid where its borrower has it when it comes up.
pub open spec fn loans_run(o: World, ls: Seq<DueLoan>, es: Seq<Event>, n: World) -> bool {
    exists|ws: Seq<World>| #[trigger] loans_run_of(o, ls, ws, es, n)
}

/// Every due loan's schedule can be worked out and its installment is not negative.
pub open spec fn loans_payable(w: World) -> bool {
    forall|k: int| 0 <= k < due_loans(w.contracts@).len() ==> loan_payable(#[trigger] due_loans(w.contracts@)[k])
}

/// Step 8c: charge each active loan its installment, paid where the
/// borrower has it (the last one taking the schedule's remainder, and the
/// loan then repaid) and missed where not.
#[verifier::rlimit(60)]
#[verifier::spinoff_prover]
pub fn cycle_end_8c_credit_installments(b: &mut TickBuilder)
    requires
        old(b).world.wf(),
        purses_bounded(old(b).world),
        escrow_fits(old(b).world),
        loans_payable(old(b).world),
    ensures
        final(b).world.wf(),
        purses_bounded(final(b).world),
        escrow_fits(final(b).world),
        final(b).tick == old(b).tick,
        final(b).cycle == old(b).cycle,
        final(b).events@.len() >= old(b).events@.len(),
        final(b).events@.take(old(b).events@.len() as int) == old(b).events@,
        loans_run(
            old(b).world,
            due_loans(old(b).world.contracts@),
            final(b).events@.skip(old(b).events@.len() as int),
            final(b).world,
        ),
        folded(old(b).world, final(b).events@.skip(old(b).events@.len() as int), final(b).world),
{
    let ghost w0 = b.world;
    let ghost start = b.events@;
    let loans = loans_due(&b.world);
    let ghost mut ws: Seq<World> = seq![w0];
    proof {
        lemma_loans_in(w0);
        lemma_folded_none(w0);
        assert(loans@.take(0) =~= Seq::<DueLoan>::empty());
        assert(start + Seq::<Event>::empty() =~= start);
    }
    let mut k: usize = 0;
    while k < loans.len()
        invariant
            k <= loans@.len(),
            loans@ == due_loans(w0.contracts@),
            loans_payable(w0),
            forall|j: int| 0 <= j < loans@.len() ==> loan_in(w0, #[trigger] loans@[j]),
            forall|a: int, c: int| 0 <= a < c < loans@.len() ==> (#[trigger] loans@[a]).id.0 < (#[trigger] loans@[c]).id.0,
            forall|j: int| k <= j < loans@.len() ==> contract_row(b.world, (#[trigger] loans@[j]).id) == contract_row(w0, loans@[j].id),
            b.world.wf(),
            purses_bounded(b.world),
            escrow_fits(b.world),
            b.tick == old(b).tick,
            b.cycle == old(b).cycle,
            ws.len() == k + 1,
            ws[0] == w0,
            ws.last() == b.world,
            forall|j: int| 0 <= j < k ==> folded(#[trigger] ws[j], loan_step(loans@[j], can_repay(ws[j], loans@[j])), ws[j + 1]),
            b.events@ == start + loan_events(loans@.take(k as int), ws),
            folded(w0, loan_events(loans@.take(k as int), ws), b.world),
        decreases loans@.len() - k,
    {
        let l = loans[k];
        let ghost before = b.world;
        let ghost done = loan_events(loans@.take(k as int), ws);
        proof {
            assert(loan_in(w0, loans@[k as int]));
            assert(contract_row(b.world, loans@[k as int].id) == contract_row(w0, loans@[k as int].id));
            assert(loan_payable(due_loans(w0.contracts@)[k as int]));
        }
        charge_loan(b, l);
        let ghost step = loan_step(l, can_repay(before, l));
        proof {
            let ws2 = ws.push(b.world);
            lemma_folded_append(w0, done, before, step, b.world);
            assert(loans@.take(k + 1).drop_last() =~= loans@.take(k as int));
            assert(loans@.take(k + 1).last() == l);
            lemma_loan_events_prefix(loans@.take(k as int), ws, ws2);
            assert(ws2[k as int] == before);
            assert(loan_events(loans@.take(k + 1), ws2) == done + step);
            assert(b.events@ =~= start + (done + step));
            assert forall|j: int| 0 <= j < k + 1 implies folded(#[trigger] ws2[j], loan_step(loans@[j], can_repay(ws2[j], loans@[j])), ws2[j + 1]) by {
                if j < k {
                    assert(ws2[j] == ws[j] && ws2[j + 1] == ws[j + 1]);
                }
            }
            assert forall|j: int| k + 1 <= j < loans@.len() implies contract_row(b.world, (#[trigger] loans@[j]).id) == contract_row(w0, loans@[j].id) by {
                assert(loans@[k as int].id.0 < loans@[j].id.0);
                assert(contract_row(b.world, loans@[j].id) == contract_row(before, loans@[j].id));
            }
            ws = ws2;
        }
        k = k + 1;
    }
    proof {
        assert(loans@.take(loans@.len() as int) =~= loans@);
        assert(b.events@.take(start.len() as int) =~= start);
        assert(b.events@.skip(start.len() as int) =~= loan_events(loans@, ws));
        assert(loans_run_of(w0, loans@, ws, b.events@.skip(start.len() as int), b.world));
    }
}

/// An org with members, by position: an association, cooperative or union.
pub open spec fn spec_association(w: World, org: OrgId) -> Result<int, RejectCode> {
    match find(w.orgs@, org.0) {
        None => Err(RejectCode::UnknownOrg),
        Some(i) => if w.orgs@[i].kind == OrgKind::Association || w.orgs@[i].kind == OrgKind::Cooperative
            || w.orgs@[i].kind == OrgKind::Union {
            Ok(i)
        } else {
            Err(RejectCode::NotInThisSociety)
        },
    }
}

/// The org, where it has members.
fn association(world: &World, org: OrgId) -> (r: Result<&Org, Reject>)
    ensures
        match (r, spec_association(*world, org)) {
            (Ok(o), Ok(i)) => *o == world.orgs@[i],
            (Err(e), Err(code)) => e.code == code,
            _ => false,
        },
{
    let i = match index_of(&world.orgs, org.0) {
        Some(i) => i,
        None => {
            return Err(Reject::new(RejectCode::UnknownOrg, { let mut m = say("no org "); put_org(&mut m, org); m }));
        },
    };
    let o = &world.orgs[i];
    if !matches!(o.kind, OrgKind::Association | OrgKind::Cooperative | OrgKind::Union) {
        return Err(Reject::new(RejectCode::NotInThisSociety, { let mut m = String::new(); put_name(&mut m, &o.name); put(&mut m, " has no members"); m }));
    }
    Ok(o)
}

/// Whether `c` is among `v`.
fn listed(v: &Vec<CitizenId>, c: CitizenId) -> (b: bool)
    ensures
        b == v@.contains(c),
{
    let mut k: usize = 0;
    while k < v.len()
        invariant
            k <= v@.len(),
            forall|j: int| 0 <= j < k ==> v@[j] != c,
        decreases v@.len() - k,
    {
        if v[k] == c {
            proof {
                assert(v@[k as int] == c);
            }
            return true;
        }
        k = k + 1;
    }
    false
}

/// Whether an offer is `citizen`'s request to join `org`.
pub open spec fn requests_membership(f: Offer, org: OrgId, citizen: CitizenId) -> bool {
    f.body matches OfferBody::Membership { org: x, citizen: c } && x == org && c == citizen
}

/// Whether the notice board holds `citizen`'s request to join `org`.
fn membership_requested(offers: &Vec<Offer>, org: OrgId, citizen: CitizenId) -> (b: bool)
    ensures
        b == exists|j: int| 0 <= j < offers@.len() && requests_membership(#[trigger] offers@[j], org, citizen),
{
    let mut k: usize = 0;
    while k < offers.len()
        invariant
            k <= offers@.len(),
            forall|j: int| 0 <= j < k ==> !requests_membership(#[trigger] offers@[j], org, citizen),
        decreases offers@.len() - k,
    {
        let f = offers[k];
        match f.body {
            OfferBody::Membership { org: x, citizen: c } => {
                if x == org && c == citizen {
                    proof {
                        assert(requests_membership(offers@[k as int], org, citizen));
                    }
                    return true;
                }
            },
            _ => {},
        }
        k = k + 1;
    }
    false
}

/// What `RequestMembership` emits: a standing request on the notice board,
/// from a citizen who is neither a member nor already asking.
pub open spec fn spec_request_membership(w: World, actor: Actor, org: OrgId) -> Result<Seq<Event>, RejectCode> {
    match spec_acting_citizen(w, actor) {
        Err(c) => Err(c),
        Ok(ci) => match spec_association(w, org) {
            Err(c) => Err(c),
            Ok(oi) => {
                let c = w.citizens@[ci].id;
                if w.orgs@[oi].members@.contains(c) {
                    Err(RejectCode::AlreadyExists)
                } else if exists|j: int| 0 <= j < w.offers@.len() && requests_membership(#[trigger] w.offers@[j], org, c) {
                    Err(RejectCode::AlreadyExists)
                } else {
                    Ok(seq![Event::MembershipRequested { offer: w.next.offer, org, citizen: c }])
                }
            },
        },
    }
}

/// `RequestMembership`: a standing request on the notice board.
pub fn request_membership<C>(world: &World, envelope: &Envelope<C>, org: OrgId) -> (r: Result<Vec<Event>, Reject>)
    ensures
        match (r, spec_request_membership(*world, envelope.actor, org)) {
            (Ok(v), Ok(s)) => v@ == s,
            (Err(e), Err(code)) => e.code == code,
            _ => false,
        },
{
    let citizen = acting_citizen(world, envelope)?;
    let o = association(world, org)?;
    if listed(&o.members, citizen.id) {
        return Err(Reject::new(RejectCode::AlreadyExists, "already a member".to_string()));
    }
    if membership_requested(&world.offers, org, citizen.id) {
        return Err(Reject::new(RejectCode::AlreadyExists, "already requested".to_string()));
    }
    let mut v: Vec<Event> = Vec::new();
    v.push(Event::MembershipRequested { offer: world.next.offer, org, citizen: citizen.id });
    proof {
        assert(v@ =~= seq![Event::MembershipRequested { offer: world.next.offer, org, citizen: citizen.id }]);
    }
    Ok(v)
}

/// What `AdmitMember` emits for an org with members: the admission, by its
/// manager, of a citizen who exists and is not yet a member.
pub open spec fn spec_admit_member(w: World, actor: Actor, org: OrgId, citizen: CitizenId) -> Result<Seq<Event>, RejectCode> {
    match spec_acting_citizen(w, actor) {
        Err(c) => Err(c),
        Ok(ci) => match spec_association(w, org) {
            Err(c) => Err(c),
            Ok(oi) => {
                let o = w.orgs@[oi];
                if o.manager != Some(w.citizens@[ci].id) {
                    Err(RejectCode::NotManager)
                } else if find(w.citizens@, citizen.0) is None {
                    Err(RejectCode::UnknownCitizen)
                } else if o.members@.contains(citizen) {
                    Err(RejectCode::AlreadyExists)
                } else {
                    Ok(seq![Event::MemberAdmitted { org, citizen }])
                }
            },
        },
    }
}

/// `AdmitMember`: the manager admits a citizen (with or without a request).
pub fn admit_member<C>(world: &World, envelope: &Envelope<C>, org: OrgId, citizen: CitizenId) -> (r: Result<Vec<Event>, Reject>)
    ensures
        match (r, spec_admit_member(*world, envelope.actor, org, citizen)) {
            (Ok(v), Ok(s)) => v@ == s,
            (Err(e), Err(code)) => e.code == code,
            _ => false,
        },
{
    let actor = acting_citizen(world, envelope)?;
    let o = association(world, org)?;
    if o.manager != Some(actor.id) {
        return Err(Reject::new(RejectCode::NotManager, say("only the manager admits (member votes arrive in Phase 2)")));
    }
    if !contains_key(&world.citizens, citizen.0) {
        return Err(Reject::new(RejectCode::UnknownCitizen, { let mut m = say("no citizen "); put_citizen(&mut m, citizen); m }));
    }
    if listed(&o.members, citizen) {
        return Err(Reject::new(RejectCode::AlreadyExists, "already a member".to_string()));
    }
    let mut v: Vec<Event> = Vec::new();
    v.push(Event::MemberAdmitted { org, citizen });
    proof {
        assert(v@ =~= seq![Event::MemberAdmitted { org, citizen }]);
    }
    Ok(v)
}

/// What `LeaveOrg` emits: a member leaves, giving up their positions, and a
/// manager who leaves vacates the chair.
pub open spec fn spec_leave_org(w: World, actor: Actor, org: OrgId) -> Result<Seq<Event>, RejectCode> {
    match spec_acting_citizen(w, actor) {
        Err(c) => Err(c),
        Ok(ci) => match spec_association(w, org) {
            Err(c) => Err(c),
            Ok(oi) => {
                let o = w.orgs@[oi];
                let c = w.citizens@[ci].id;
                if !o.members@.contains(c) {
                    Err(RejectCode::NotParty)
                } else if o.manager == Some(c) {
                    Ok(crate::coop::spec_leave_events(w, o, c).push(Event::ManagerAppointed { org, citizen: None }))
                } else {
                    Ok(crate::coop::spec_leave_events(w, o, c))
                }
            },
        },
    }
}

/// `LeaveOrg`: a member leaves; a manager who leaves vacates the chair.
pub fn leave_org<C>(world: &World, envelope: &Envelope<C>, org: OrgId) -> (r: Result<Vec<Event>, Reject>)
    ensures
        match (r, spec_leave_org(*world, envelope.actor, org)) {
            (Ok(v), Ok(s)) => v@ == s,
            (Err(e), Err(code)) => e.code == code,
            _ => false,
        },
{
    let citizen = acting_citizen(world, envelope)?;
    let o = association(world, org)?;
    if !listed(&o.members, citizen.id) {
        return Err(Reject::new(RejectCode::NotParty, "not a member".to_string()));
    }
    let mut v = crate::coop::leave_events(world, o, citizen.id);
    if o.manager == Some(citizen.id) {
        v.push(Event::ManagerAppointed { org, citizen: None });
    }
    Ok(v)
}

/// Whether a borrower can pledge `collateral`: a dwelling they own that no
/// open loan holds, or shares they hold (a positive number, no more than
/// they have).
pub open spec fn spec_owns_collateral(w: World, borrower: Party, collateral: Collateral) -> Result<(), RejectCode> {
    match collateral {
        Collateral::Dwelling(d) => match find(w.dwellings@, d.0) {
            None => Err(RejectCode::UnknownDwelling),
            Some(i) => if w.dwellings@[i].owner != crate::housing::spec_owner_of(borrower) {
                Err(RejectCode::NotOwner)
            } else if spec_pledged(w, collateral) {
                Err(RejectCode::AlreadyExists)
            } else {
                Ok(())
            },
        },
        Collateral::Shares(org, qty) => if crate::shares::spec_shares_held(w, borrower, org) < qty || qty == 0 {
            Err(RejectCode::InsufficientGoods)
        } else {
            Ok(())
        },
    }
}

/// Whether a borrower can pledge `collateral`.
pub fn owns_collateral(world: &World, borrower: Party, collateral: Collateral) -> (r: Result<(), Reject>)
    ensures
        match (r, spec_owns_collateral(*world, borrower, collateral)) {
            (Ok(_), Ok(_)) => true,
            (Err(e), Err(code)) => e.code == code,
            _ => false,
        },
{
    match collateral {
        Collateral::Dwelling(d) => {
            let i = match index_of(&world.dwellings, d.0) {
                Some(i) => i,
                None => {
                    return Err(Reject::new(RejectCode::UnknownDwelling, { let mut m = say("no dwelling "); put_dwelling(&mut m, d); m }));
                },
            };
            if world.dwellings[i].owner != crate::housing::owner_of(borrower) {
                return Err(Reject::new(RejectCode::NotOwner, { let mut m = String::new(); put_party(&mut m, borrower); put(&mut m, " does not own "); put_dwelling(&mut m, d); m }));
            }
            if pledged(world, collateral) {
                return Err(Reject::new(RejectCode::AlreadyExists, { let mut m = String::new(); put_dwelling(&mut m, d); put(&mut m, " is already pledged"); m }));
            }
        },
        Collateral::Shares(org, qty) => {
            let held = crate::shares::shares_held(world, borrower, org);
            if held < qty || qty == 0 {
                return Err(Reject::new(RejectCode::InsufficientGoods, { let mut m = String::new(); put_party(&mut m, borrower); put(&mut m, " holds "); put_num(&mut m, held); put(&mut m, " shares of "); put_org(&mut m, org); m }));
            }
        },
    }
    Ok(())
}

} // verus!
