//! Employment: whether a citizen works under contract, and payday.
use crate::command::{acting_citizen, spec_acting_citizen, Envelope, Reject, RejectCode};
use crate::event::Actor;
use crate::world::Org;
use crate::ids::{CitizenId, ContractId, OrgId, WorkplaceId};
use crate::ledger::Party;
use crate::table::{find, first, index_of, lemma_first};
use crate::coop::worker_is;
use crate::world::Worker;
use crate::world::{Contract, ContractBody, ContractStatus, Pay, World};
use crate::money::Money;
use crate::apply::applied;
use crate::conservation::{lemma_citizen_row, lemma_org_row};
use crate::event::Event;
use crate::ledger::money_held;
use crate::shares::{lemma_payouts_within_treasury, owed_total, paid_term, payout, spec_money_of_org, total_owed, Owed};
use crate::sum::{lemma_sum_take_step, seq_sum};
use crate::table::{lemma_find, lemma_find_unique};
use crate::tick::{
    folded, lemma_folded_none, lemma_folded_step, lemma_payment_bounded, lemma_payment_movable, purses, purses_bounded,
    TickBuilder,
};
use crate::message::{put, put_citizen, put_contract, put_dwelling, put_kind, put_money, put_name, put_num, put_org, put_party, put_slot, put_workplace, say};
use vstd::prelude::*;

verus! {

/// Whether a contract employs `citizen` and is not over.
pub open spec fn employs(k: Contract, citizen: CitizenId) -> bool {
    &&& k.body is Employment
    &&& k.status != ContractStatus::Ended
    &&& k.parties.1 == Party::Citizen(citizen)
}

/// Whether a citizen holds an employment contract that is not over.
pub open spec fn spec_employed(w: World, citizen: CitizenId) -> bool {
    exists|j: int| 0 <= j < w.contracts@.len() && employs(#[trigger] w.contracts@[j], citizen)
}

/// Whether a citizen holds any active employment contract.
pub fn employed(world: &World, citizen: CitizenId) -> (b: bool)
    ensures
        b == spec_employed(*world, citizen),
{
    let ks = &world.contracts;
    let mut i: usize = 0;
    while i < ks.len()
        invariant
            i <= ks@.len(),
            ks@ == world.contracts@,
            forall|j: int| 0 <= j < i ==> !employs(#[trigger] ks@[j], citizen),
        decreases ks@.len() - i,
    {
        let k = ks[i];
        if matches!(k.body, ContractBody::Employment { .. }) && k.status != ContractStatus::Ended && k.parties.1
            == Party::Citizen(citizen) {
            assert(employs(ks@[i as int], citizen));
            return true;
        }
        i = i + 1;
    }
    false
}

/// The employment contract `id`, by position, where it is one and not over.
pub open spec fn spec_employment(w: World, id: ContractId) -> Result<int, RejectCode> {
    match find(w.contracts@, id.0) {
        None => Err(RejectCode::UnknownContract),
        Some(i) => if w.contracts@[i].body is Employment && w.contracts@[i].status != ContractStatus::Ended {
            Ok(i)
        } else {
            Err(RejectCode::UnknownContract)
        },
    }
}

/// The employment contract, if it is one and still open, with its org,
/// workplace, pay, hours and notice.
pub fn employment(world: &World, id: ContractId) -> (r: Result<(Contract, OrgId, WorkplaceId, Pay, u8, u32), Reject>)
    ensures
        match (r, spec_employment(*world, id)) {
            (Ok((k, org, workplace, pay, max_hours, notice_cycles)), Ok(i)) => {
                &&& k == world.contracts@[i]
                &&& k.body == ContractBody::Employment { org, workplace, pay, max_hours, notice_cycles }
            },
            (Err(e), Err(code)) => e.code == code,
            _ => false,
        },
{
    let i = match index_of(&world.contracts, id.0) {
        Some(i) => i,
        None => {
            return Err(Reject::new(RejectCode::UnknownContract, { let mut m = say("no contract "); put_contract(&mut m, id); m }));
        },
    };
    let k = world.contracts[i];
    match k.body {
        ContractBody::Employment { org, workplace, pay, max_hours, notice_cycles } => {
            if k.status != ContractStatus::Ended {
                return Ok((k, org, workplace, pay, max_hours, notice_cycles));
            }
        },
        _ => {},
    }
    Err(Reject::new(RejectCode::UnknownContract, { let mut m = say("contract "); put_contract(&mut m, id); put(&mut m, " is not an open employment"); m }))
}

/// The pay accrued under contract `k` this cycle: its first entry in
/// `accrued`, or nothing where it has none.
pub open spec fn accrued_of(accrued: Seq<(ContractId, Money)>, k: ContractId) -> Money
    decreases accrued.len(),
{
    if accrued.len() == 0 {
        Money(0)
    } else if accrued[0].0 == k {
        accrued[0].1
    } else {
        accrued_of(accrued.drop_first(), k)
    }
}

/// The pay accrued under contract `k` this cycle.
pub fn accrued_for(accrued: &Vec<(ContractId, Money)>, k: ContractId) -> (m: Money)
    ensures
        m == accrued_of(accrued@, k),
{
    let mut i: usize = 0;
    proof {
        assert(accrued@.skip(0) =~= accrued@);
    }
    while i < accrued.len()
        invariant
            i <= accrued@.len(),
            accrued_of(accrued@.skip(i as int), k) == accrued_of(accrued@, k),
        decreases accrued@.len() - i,
    {
        proof {
            assert(accrued@.skip(i as int).drop_first() =~= accrued@.skip(i + 1));
            assert(accrued@.skip(i as int)[0] == accrued@[i as int]);
        }
        let (c, m) = accrued[i];
        if c == k {
            return m;
        }
        i = i + 1;
    }
    proof {
        assert(accrued@.skip(i as int).len() == 0);
    }
    Money(0)
}

/// A wage owed on payday: the contract, its worker and workplace, and the
/// pay accrued under it.
#[derive(Clone, Copy, Debug, PartialEq, Eq, Structural)]
pub struct Wage {
    pub contract: ContractId,
    pub citizen: CitizenId,
    pub workplace: WorkplaceId,
    pub amount: Money,
}

/// The wage owed under contract `k`: where it is an active employment of a
/// citizen with pay accrued.
pub open spec fn wage_line(w: World, k: ContractId, accrued: Seq<(ContractId, Money)>) -> Option<Wage> {
    match find(w.contracts@, k.0) {
        None => None,
        Some(i) => {
            let c = w.contracts@[i];
            let a = accrued_of(accrued, k);
            match (c.body, c.parties.1) {
                (ContractBody::Employment { workplace, .. }, Party::Citizen(worker)) => if c.status
                    == ContractStatus::Active && a.0 > 0 {
                    Some(Wage { contract: k, citizen: worker, workplace, amount: a })
                } else {
                    None
                },
                _ => None,
            }
        },
    }
}

/// The wages owed under the contracts `ids`, in order.
pub open spec fn wage_lines(w: World, ids: Seq<ContractId>, accrued: Seq<(ContractId, Money)>) -> Seq<Wage>
    decreases ids.len(),
{
    if ids.len() == 0 {
        Seq::empty()
    } else {
        match wage_line(w, ids.last(), accrued) {
            Some(l) => wage_lines(w, ids.drop_last(), accrued).push(l),
            None => wage_lines(w, ids.drop_last(), accrued),
        }
    }
}

/// Wages as lines owed to citizens.
pub open spec fn wages_owed(ls: Seq<Wage>) -> Seq<Owed> {
    ls.map_values(|l: Wage| Owed { citizen: l.citizen, shares: 0, amount: l.amount })
}

/// The wages an org owes its employees on payday, with the same lines as
/// owed to citizens.
fn wages_of(world: &World, k: usize, accrued: &Vec<(ContractId, Money)>) -> (r: (Vec<Wage>, Vec<Owed>))
    requires
        world.wf(),
        k < world.orgs@.len(),
    ensures
        r.0@ == wage_lines(*world, world.orgs@[k as int].employees@, accrued@),
        r.1@ == wages_owed(r.0@),
        forall|i: int| 0 <= i < r.1@.len() ==> 0 <= (#[trigger] r.1@[i]).amount.0,
{
    let ids = &world.orgs[k].employees;
    let mut ls: Vec<Wage> = Vec::new();
    let mut os: Vec<Owed> = Vec::new();
    let mut j: usize = 0;
    while j < ids.len()
        invariant
            j <= ids@.len(),
            ids@ == world.orgs@[k as int].employees@,
            ls@ == wage_lines(*world, ids@.take(j as int), accrued@),
            os@ == wages_owed(ls@),
            forall|i: int| 0 <= i < os@.len() ==> 0 <= (#[trigger] os@[i]).amount.0,
        decreases ids@.len() - j,
    {
        proof {
            assert(ids@.take(j + 1).drop_last() =~= ids@.take(j as int));
            assert(ids@.take(j + 1).last() == ids@[j as int]);
        }
        let cid = ids[j];
        if let Some(i) = index_of(&world.contracts, cid.0) {
            let c = world.contracts[i];
            let a = accrued_for(accrued, cid);
            match (c.body, c.parties.1) {
                (ContractBody::Employment { workplace, .. }, Party::Citizen(worker)) => {
                    if c.status == ContractStatus::Active && a.0 > 0 {
                        let l = Wage { contract: cid, citizen: worker, workplace, amount: a };
                        ls.push(l);
                        os.push(Owed { citizen: worker, shares: 0, amount: a });
                        proof {
                            assert(os@ =~= wages_owed(ls@));
                        }
                    }
                },
                _ => {},
            }
        }
        j = j + 1;
    }
    proof {
        assert(ids@.take(ids@.len() as int) =~= ids@);
    }
    (ls, os)
}

/// What paying one wage emits: the payment where it is positive, and, where
/// the treasury falls short of the total, the missed payment.
pub open spec fn pay_line(org: OrgId, l: Wage, total: int, treasury: int) -> Seq<Event> {
    let p = payout(l.amount.0 as int, total, treasury);
    (if p > 0 {
        seq![Event::Paid { citizen: l.citizen, org, contract: Some(l.contract), amount: Money(p as i64) }]
    } else {
        Seq::empty()
    }) + (if total > treasury {
        seq![Event::PaymentMissed { citizen: l.citizen, org, contract: l.contract, owed: l.amount, paid: Money(p as i64) }]
    } else {
        Seq::empty()
    })
}

/// What paying the wages `ls` emits, in order.
pub open spec fn wage_payments(org: OrgId, ls: Seq<Wage>, total: int, treasury: int) -> Seq<Event>
    decreases ls.len(),
{
    if ls.len() == 0 {
        Seq::empty()
    } else {
        wage_payments(org, ls.drop_last(), total, treasury) + pay_line(org, ls.last(), total, treasury)
    }
}

/// Each worker of a breached wage leaves the workplace.
pub open spec fn breaches(ls: Seq<Wage>) -> Seq<Event>
    decreases ls.len(),
{
    if ls.len() == 0 {
        Seq::empty()
    } else {
        breaches(ls.drop_last()).push(Event::Unassigned { workplace: ls.last().workplace, citizen: ls.last().citizen })
    }
}

/// What payday emits for the org at `k`: each wage paid from the treasury,
/// in full where it covers them all, pro rata with each payment missed where
/// it does not, and then every underpaid worker let go.
pub open spec fn payday(w: World, k: int, accrued: Seq<(ContractId, Money)>) -> Seq<Event> {
    let o = w.orgs@[k];
    let ls = wage_lines(w, o.employees@, accrued);
    let total = owed_total(wages_owed(ls));
    let tr = o.treasury.0 as int;
    wage_payments(o.id, ls, total, tr) + if total > tr {
        breaches(ls)
    } else {
        Seq::empty()
    }
}

/// What paying a wage does to the orgs: the payer's treasury goes down by the amount.
proof fn lemma_wage_rows(o: World, n: World, k: int, c: CitizenId, cid: Option<ContractId>, a: Money)
    requires
        o.wf(),
        0 <= k < o.orgs@.len(),
        applied(o, n, Event::Paid { citizen: c, org: o.orgs@[k].id, contract: cid, amount: a }),
    ensures
        n.orgs@ == o.orgs@.update(k, crate::apply::with_treasury(o.orgs@[k], o.orgs@[k].treasury.0 - a.0)),
        n.params == o.params,
{
    let org = o.orgs@[k].id;
    let m = crate::ledger::Asset::Money(a);
    let mid = choose|mid: World|
        crate::apply::moved_via(o, mid, n, crate::ledger::Holder::Org(org), crate::ledger::Holder::Citizen(c), m);
    lemma_find_unique(o.orgs@, k);
    assert(n.orgs == mid.orgs);
}

/// A missed payment marks the org and ends the contract: no money moves.
proof fn lemma_missed_rows(o: World, n: World, k: int, c: CitizenId, cid: ContractId, owed: Money, paid: Money)
    requires
        o.wf(),
        purses_bounded(o),
        0 <= k < o.orgs@.len(),
        applied(o, n, Event::PaymentMissed { citizen: c, org: o.orgs@[k].id, contract: cid, owed, paid }),
    ensures
        n.params == o.params,
        n.orgs@.len() == o.orgs@.len(),
        n.orgs@[k].id == o.orgs@[k].id,
        n.orgs@[k].treasury == o.orgs@[k].treasury,
        purses_bounded(n),
{
    lemma_find_unique(o.orgs@, k);
    assert(crate::apply::missed_payment(o.orgs@[k], n.orgs@[k], cid));
    assert(n.orgs@ =~= o.orgs@.update(k, n.orgs@[k]));
    let m1 = World { orgs: n.orgs, ..o };
    lemma_org_row(o, m1, k, n.orgs@[k]);
    assert(money_held(m1) - purses(m1) == money_held(o) - purses(o));
    assert(purses(n) == purses(m1));
}

/// Letting a worker go moves no money and leaves the orgs as they are.
proof fn lemma_unassigned_bounded(o: World, n: World, wp: WorkplaceId, c: CitizenId)
    requires
        o.wf(),
        purses_bounded(o),
        applied(o, n, Event::Unassigned { workplace: wp, citizen: c }),
    ensures
        n.params == o.params,
        n.orgs == o.orgs,
        purses_bounded(n),
{
    let mid = choose|mid: World| crate::apply::unassigned_via(o, mid, n, wp, c);
    assert(purses(mid) == purses(o));
    if let Some(j) = find(mid.citizens@, c.0) {
        lemma_find(mid.citizens@, c.0);
        assert(n.citizens@ =~= mid.citizens@.update(j, n.citizens@[j]));
        lemma_citizen_row(mid, n, j, n.citizens@[j]);
        assert(money_held(n) - purses(n) == money_held(mid) - purses(mid));
    } else {
        assert(n.citizens@ == mid.citizens@);
        assert(purses(n) == purses(mid));
    }
}

/// Pay the org at `k` its employees' wages, and let go each worker it
/// could not pay in full.
fn pay_wages(b: &mut TickBuilder, k: usize, accrued: &Vec<(ContractId, Money)>)
    requires
        old(b).world.wf(),
        purses_bounded(old(b).world),
        k < old(b).world.orgs@.len(),
    ensures
        final(b).world.wf(),
        purses_bounded(final(b).world),
        final(b).tick == old(b).tick,
        final(b).cycle == old(b).cycle,
        final(b).world.params == old(b).world.params,
        final(b).world.orgs@.len() == old(b).world.orgs@.len(),
        final(b).events@ == old(b).events@ + payday(old(b).world, k as int, accrued@),
        folded(old(b).world, payday(old(b).world, k as int, accrued@), final(b).world),
{
    let ghost w0 = b.world;
    let ghost start = b.events@;
    proof {
        lemma_folded_none(w0);
        assert(start + Seq::<Event>::empty() =~= start);
    }
    let (ls, os) = wages_of(&b.world, k, accrued);
    let treasury = b.world.orgs[k].treasury.0;
    let org = b.world.orgs[k].id;
    let total = total_owed(&os);
    let short = total > treasury as i128;
    let ghost tr = treasury as int;
    let ghost f = paid_term(total as int, tr);
    proof {
        assert(w0.orgs@[k as int].treasury.0 >= 0);
        assert forall|m: int| 0 <= m <= os@.len() implies 0 <= #[trigger] seq_sum(os@.take(m), f) <= tr by {
            lemma_payouts_within_treasury(os@, tr, m);
        }
        assert(os@.take(0) =~= Seq::<Owed>::empty());
        assert(ls@.take(0) =~= Seq::<Wage>::empty());
    }
    let mut i: usize = 0;
    while i < ls.len()
        invariant
            i <= ls@.len(),
            ls@.len() == os@.len(),
            os@ == wages_owed(ls@),
            b.world.wf(),
            purses_bounded(b.world),
            b.tick == old(b).tick,
            b.cycle == old(b).cycle,
            b.world.params == w0.params,
            b.world.orgs@.len() == w0.orgs@.len(),
            k < w0.orgs@.len(),
            b.world.orgs@[k as int].id == org,
            org == w0.orgs@[k as int].id,
            tr == w0.orgs@[k as int].treasury.0,
            tr == treasury as int,
            total == owed_total(os@),
            short == (total > tr),
            f == paid_term(total as int, tr),
            b.world.orgs@[k as int].treasury.0 == tr - seq_sum(os@.take(i as int), f),
            forall|m: int| 0 <= m <= os@.len() ==> 0 <= #[trigger] seq_sum(os@.take(m), f) <= tr,
            b.events@ == start + wage_payments(org, ls@.take(i as int), total as int, tr),
            folded(w0, wage_payments(org, ls@.take(i as int), total as int, tr), b.world),
        decreases ls@.len() - i,
    {
        let x = ls[i];
        let ghost done = wage_payments(org, ls@.take(i as int), total as int, tr);
        proof {
            lemma_sum_take_step(os@, f, i as int);
            assert(ls@.take(i + 1).drop_last() =~= ls@.take(i as int));
            assert(ls@.take(i + 1).last() == x);
            assert(os@[i as int].amount == x.amount);
            assert(0 <= seq_sum(os@.take(i + 1), f) <= tr);
        }
        let p: i128 = if short {
            let d: i128 = if total > 1 {
                total
            } else {
                1
            };
            assert(-0x4000_0000_0000_0000_0000_0000_0000_0000 <= x.amount.0 * treasury
                <= 0x4000_0000_0000_0000_0000_0000_0000_0000) by (nonlinear_arith)
                requires
                    -0x8000_0000_0000_0000 <= x.amount.0 <= 0x7fff_ffff_ffff_ffff,
                    -0x8000_0000_0000_0000 <= treasury <= 0x7fff_ffff_ffff_ffff,
            ;
            let prod: i128 = x.amount.0 as i128 * treasury as i128;
            assert(d as int == (if total > 1 { total as int } else { 1int }));
            if prod >= 0 {
                let r = prod / d;
                assert(r == crate::shares::div_toward_zero(x.amount.0 * treasury, d as int));
                r
            } else {
                let np: i128 = -prod;
                let r = np / d;
                assert(-r == crate::shares::div_toward_zero(x.amount.0 * treasury, d as int));
                -r
            }
        } else {
            x.amount.0 as i128
        };
        assert(p == payout(x.amount.0 as int, total as int, tr));
        let ghost step = pay_line(org, x, total as int, tr);
        if p > 0 {
            let paid = Money(p as i64);
            let ghost before = b.world;
            proof {
                lemma_find_unique(b.world.orgs@, k as int);
                assert(spec_money_of_org(b.world, org) == tr - seq_sum(os@.take(i as int), f));
                lemma_payment_movable(b.world, Party::Org(org), Party::Citizen(x.citizen), paid);
            }
            let e = Event::Paid { citizen: x.citizen, org, contract: Some(x.contract), amount: paid };
            let ghost g = e;
            b.emit(e);
            proof {
                lemma_folded_step(w0, done, before, b.world, g);
                lemma_payment_bounded(before, b.world, Party::Org(org), Party::Citizen(x.citizen), paid);
                lemma_wage_rows(before, b.world, k as int, x.citizen, Some(x.contract), paid);
                assert(b.events@ =~= start + done.push(g));
            }
        }
        let ghost mid = b.world;
        let ghost paid_part: Seq<Event> = if p > 0 {
            seq![Event::Paid { citizen: x.citizen, org, contract: Some(x.contract), amount: Money(p as i64) }]
        } else {
            Seq::empty()
        };
        proof {
            if p <= 0 {
                assert(done + paid_part =~= done);
            } else {
                assert(done.push(paid_part[0]) =~= done + paid_part);
            }
            assert(b.events@ =~= start + (done + paid_part));
        }
        if short {
            let e = Event::PaymentMissed { citizen: x.citizen, org, contract: x.contract, owed: x.amount, paid: Money(p as i64) };
            let ghost g = e;
            b.emit(e);
            proof {
                lemma_folded_step(w0, done + paid_part, mid, b.world, g);
                lemma_missed_rows(mid, b.world, k as int, x.citizen, x.contract, x.amount, Money(p as i64));
                assert(b.events@ =~= start + (done + paid_part).push(g));
                assert(step =~= paid_part + seq![g]);
                assert((done + paid_part).push(g) =~= done + step);
            }
        } else {
            proof {
                assert(step =~= paid_part);
            }
        }
        proof {
            assert(wage_payments(org, ls@.take(i + 1), total as int, tr) == done + step);
            assert(b.events@ =~= start + (done + step));
        }
        i = i + 1;
    }
    let ghost paid_all = wage_payments(org, ls@, total as int, tr);
    proof {
        assert(ls@.take(ls@.len() as int) =~= ls@);
        assert(os@.take(os@.len() as int) =~= os@);
        assert(ls@.take(0) =~= Seq::<Wage>::empty());
        assert(paid_all + Seq::<Event>::empty() =~= paid_all);
    }
    if short {
        let mut j: usize = 0;
        while j < ls.len()
            invariant
                j <= ls@.len(),
                b.world.wf(),
                purses_bounded(b.world),
                b.tick == old(b).tick,
                b.cycle == old(b).cycle,
                b.world.params == w0.params,
                b.world.orgs@.len() == w0.orgs@.len(),
                b.events@ == start + (paid_all + breaches(ls@.take(j as int))),
                folded(w0, paid_all + breaches(ls@.take(j as int)), b.world),
            decreases ls@.len() - j,
        {
            let x = ls[j];
            let ghost before = b.world;
            let ghost done = paid_all + breaches(ls@.take(j as int));
            let e = Event::Unassigned { workplace: x.workplace, citizen: x.citizen };
            let ghost g = e;
            b.emit(e);
            proof {
                lemma_folded_step(w0, done, before, b.world, g);
                lemma_unassigned_bounded(before, b.world, x.workplace, x.citizen);
                assert(ls@.take(j + 1).drop_last() =~= ls@.take(j as int));
                assert(ls@.take(j + 1).last() == x);
                assert(paid_all + breaches(ls@.take(j + 1)) =~= done.push(g));
                assert(b.events@ =~= start + done.push(g));
            }
            j = j + 1;
        }
        proof {
            assert(ls@.take(ls@.len() as int) =~= ls@);
        }
    }
}

/// Whether a contract's term has run out by the end of `cycle`.
pub open spec fn term_over(c: Contract, cycle: int, ticks_per_cycle: int) -> bool {
    match c.term_cycles {
        Some(t) => cycle + 1 >= c.created_tick as int / ticks_per_cycle + t,
        None => false,
    }
}

/// The employment under contract `k` that ends with its term this cycle:
/// the contract, its workplace and its worker.
pub open spec fn ending(w: World, k: ContractId, cycle: int, ticks_per_cycle: int) -> Option<(ContractId, WorkplaceId, CitizenId)> {
    match find(w.contracts@, k.0) {
        None => None,
        Some(i) => {
            let c = w.contracts@[i];
            match (c.body, c.parties.1) {
                (ContractBody::Employment { workplace, .. }, Party::Citizen(worker)) => if c.status
                    != ContractStatus::Ended && term_over(c, cycle, ticks_per_cycle) {
                    Some((k, workplace, worker))
                } else {
                    None
                },
                _ => None,
            }
        },
    }
}

/// The employments under the contracts `ids` that end with their term, in order.
pub open spec fn endings(w: World, ids: Seq<ContractId>, cycle: int, ticks_per_cycle: int) -> Seq<(ContractId, WorkplaceId, CitizenId)>
    decreases ids.len(),
{
    if ids.len() == 0 {
        Seq::empty()
    } else {
        match ending(w, ids.last(), cycle, ticks_per_cycle) {
            Some(e) => endings(w, ids.drop_last(), cycle, ticks_per_cycle).push(e),
            None => endings(w, ids.drop_last(), cycle, ticks_per_cycle),
        }
    }
}

/// What ending the employments `es` emits: each contract ends by the org,
/// with nothing owed, and its worker leaves the workplace.
pub open spec fn end_events(org: OrgId, es: Seq<(ContractId, WorkplaceId, CitizenId)>) -> Seq<Event>
    decreases es.len(),
{
    if es.len() == 0 {
        Seq::empty()
    } else {
        end_events(org, es.drop_last()) + seq![
            Event::EmploymentTerminated {
                contract: es.last().0,
                by: Party::Org(org),
                notice_pay: Money(0),
                forfeited: Money(0),
            },
            Event::Unassigned { workplace: es.last().1, citizen: es.last().2 },
        ]
    }
}

/// The employments of the org at `k` that end with their term this cycle.
fn endings_of(world: &World, k: usize, cycle: u32) -> (r: Vec<(ContractId, WorkplaceId, CitizenId)>)
    requires
        world.wf(),
        k < world.orgs@.len(),
    ensures
        r@ == endings(*world, world.orgs@[k as int].employees@, cycle as int, world.params.time.ticks_per_cycle as int),
{
    let tpc = world.params.time.ticks_per_cycle;
    let ids = &world.orgs[k].employees;
    let mut r: Vec<(ContractId, WorkplaceId, CitizenId)> = Vec::new();
    let mut j: usize = 0;
    while j < ids.len()
        invariant
            j <= ids@.len(),
            ids@ == world.orgs@[k as int].employees@,
            tpc == world.params.time.ticks_per_cycle,
            tpc > 0,
            r@ == endings(*world, ids@.take(j as int), cycle as int, tpc as int),
        decreases ids@.len() - j,
    {
        proof {
            assert(ids@.take(j + 1).drop_last() =~= ids@.take(j as int));
            assert(ids@.take(j + 1).last() == ids@[j as int]);
        }
        let cid = ids[j];
        if let Some(i) = index_of(&world.contracts, cid.0) {
            let c = world.contracts[i];
            match (c.body, c.parties.1) {
                (ContractBody::Employment { workplace, .. }, Party::Citizen(worker)) => {
                    let over = match c.term_cycles {
                        Some(t) => cycle as u64 + 1 >= (c.created_tick / tpc) as u64 + t as u64,
                        None => false,
                    };
                    assert(over == term_over(c, cycle as int, tpc as int));
                    if c.status != ContractStatus::Ended && over {
                        r.push((cid, workplace, worker));
                    }
                },
                _ => {},
            }
        }
        j = j + 1;
    }
    proof {
        assert(ids@.take(ids@.len() as int) =~= ids@);
    }
    r
}

/// Ending an employment moves no money and keeps the orgs in their places.
proof fn lemma_terminated_bounded(o: World, n: World, cid: ContractId, by: Party, notice_pay: Money, forfeited: Money)
    requires
        o.wf(),
        purses_bounded(o),
        applied(o, n, Event::EmploymentTerminated { contract: cid, by, notice_pay, forfeited }),
    ensures
        n.params == o.params,
        n.orgs@.len() == o.orgs@.len(),
        purses_bounded(n),
{
    if let Some(i) = find(o.contracts@, cid.0) {
        let m1 = World { orgs: n.orgs, ..o };
        if let Party::Org(org) = o.contracts@[i].parties.0 {
            lemma_find(o.orgs@, org.0);
            if let Some(j) = find(o.orgs@, org.0) {
                assert(crate::apply::employee_dropped(o.orgs@[j], n.orgs@[j], cid));
                assert(n.orgs@ =~= o.orgs@.update(j, n.orgs@[j]));
                lemma_org_row(o, m1, j, n.orgs@[j]);
                assert(money_held(m1) - purses(m1) == money_held(o) - purses(o));
            } else {
                assert(n.orgs@ == o.orgs@);
                assert(purses(m1) == purses(o));
            }
        }
        assert(purses(n) == purses(m1));
    }
}

/// End, for the org at `k`, each employment whose term has run out.
fn end_terms(b: &mut TickBuilder, k: usize)
    requires
        old(b).world.wf(),
        purses_bounded(old(b).world),
        k < old(b).world.orgs@.len(),
    ensures
        final(b).world.wf(),
        purses_bounded(final(b).world),
        final(b).tick == old(b).tick,
        final(b).cycle == old(b).cycle,
        final(b).world.params == old(b).world.params,
        final(b).world.orgs@.len() == old(b).world.orgs@.len(),
        final(b).events@ == old(b).events@ + end_events(
            old(b).world.orgs@[k as int].id,
            endings(
                old(b).world,
                old(b).world.orgs@[k as int].employees@,
                old(b).cycle as int,
                old(b).world.params.time.ticks_per_cycle as int,
            ),
        ),
        folded(
            old(b).world,
            end_events(
                old(b).world.orgs@[k as int].id,
                endings(
                    old(b).world,
                    old(b).world.orgs@[k as int].employees@,
                    old(b).cycle as int,
                    old(b).world.params.time.ticks_per_cycle as int,
                ),
            ),
            final(b).world,
        ),
{
    let ghost w0 = b.world;
    let ghost start = b.events@;
    let org = b.world.orgs[k].id;
    let es = endings_of(&b.world, k, b.cycle);
    proof {
        lemma_folded_none(w0);
        assert(es@.take(0) =~= Seq::<(ContractId, WorkplaceId, CitizenId)>::empty());
        assert(start + Seq::<Event>::empty() =~= start);
    }
    let mut j: usize = 0;
    while j < es.len()
        invariant
            j <= es@.len(),
            b.world.wf(),
            purses_bounded(b.world),
            b.tick == old(b).tick,
            b.cycle == old(b).cycle,
            b.world.params == w0.params,
            b.world.orgs@.len() == w0.orgs@.len(),
            b.events@ == start + end_events(org, es@.take(j as int)),
            folded(w0, end_events(org, es@.take(j as int)), b.world),
        decreases es@.len() - j,
    {
        let (cid, workplace, worker) = es[j];
        let ghost done = end_events(org, es@.take(j as int));
        let ghost before = b.world;
        let e1 = Event::EmploymentTerminated { contract: cid, by: Party::Org(org), notice_pay: Money(0), forfeited: Money(0) };
        let ghost g1 = e1;
        b.emit(e1);
        let ghost mid = b.world;
        proof {
            lemma_folded_step(w0, done, before, mid, g1);
            lemma_terminated_bounded(before, mid, cid, Party::Org(org), Money(0), Money(0));
        }
        let e2 = Event::Unassigned { workplace, citizen: worker };
        let ghost g2 = e2;
        b.emit(e2);
        proof {
            lemma_folded_step(w0, done.push(g1), mid, b.world, g2);
            lemma_unassigned_bounded(mid, b.world, workplace, worker);
            assert(es@.take(j + 1).drop_last() =~= es@.take(j as int));
            assert(es@.take(j + 1).last() == es@[j as int]);
            assert(end_events(org, es@.take(j + 1)) =~= done.push(g1).push(g2));
            assert(b.events@ =~= start + done.push(g1).push(g2));
        }
        j = j + 1;
    }
    proof {
        assert(es@.take(es@.len() as int) =~= es@);
    }
}

/// The org at `k` settles payday on `o` and then ends its expired
/// employments on the world payday left, emitting `es`, to reach `n`.
pub open spec fn payroll_step(o: World, k: int, accrued: Seq<(ContractId, Money)>, cycle: int, es: Seq<Event>, n: World) -> bool {
    exists|m: World|
        {
            &&& #[trigger] folded(o, payday(o, k, accrued), m)
            &&& es == payday(o, k, accrued) + end_events(
                m.orgs@[k].id,
                endings(m, m.orgs@[k].employees@, cycle, m.params.time.ticks_per_cycle as int),
            )
            &&& folded(m, es.skip(payday(o, k, accrued).len() as int), n)
        }
}

/// The orgs of `o` settle their payrolls one after another, each on the
/// world the ones before it left: `ws[k]` is the world the org at `k`
/// starts from and `ess[k]` what it emits.
pub open spec fn payroll_run_of(
    o: World,
    accrued: Seq<(ContractId, Money)>,
    ws: Seq<World>,
    ess: Seq<Seq<Event>>,
    n: World,
    cycle: int,
) -> bool {
    &&& ws.len() == o.orgs@.len() + 1
    &&& ess.len() == o.orgs@.len()
    &&& ws[0] == o
    &&& ws.last() == n
    &&& forall|k: int| 0 <= k < ess.len() ==> payroll_step(#[trigger] ws[k], k, accrued, cycle, ess[k], ws[k + 1])
}

/// The payroll of every org, in table order, takes `o` to `n` emitting `es`.
pub open spec fn payroll_run(o: World, accrued: Seq<(ContractId, Money)>, es: Seq<Event>, n: World, cycle: int) -> bool {
    exists|ws: Seq<World>, ess: Seq<Seq<Event>>|
        #[trigger] payroll_run_of(o, accrued, ws, ess, n, cycle) && es == ess.flatten_alt()
}

/// Step 8a: payroll. Each org, in turn, pays its active employment
/// contracts the pay accrued under them this cycle (`accrued`, as
/// `accrued_by_contract` reckons it) from its
/// treasury; where the treasury cannot cover payday, every wage is paid pro
/// rata, each shortfall is a missed payment (the contract ends and the org is
/// flagged) and each underpaid worker leaves. Then the org's employments
/// whose term has run out end.
#[verifier::rlimit(40)]
#[verifier::spinoff_prover]
pub fn cycle_end_8a_payroll(b: &mut TickBuilder, accrued: &Vec<(ContractId, Money)>)
    requires
        old(b).world.wf(),
        purses_bounded(old(b).world),
    ensures
        final(b).world.wf(),
        purses_bounded(final(b).world),
        final(b).tick == old(b).tick,
        final(b).cycle == old(b).cycle,
        final(b).events@.len() >= old(b).events@.len(),
        final(b).events@.take(old(b).events@.len() as int) == old(b).events@,
        payroll_run(
            old(b).world,
            accrued@,
            final(b).events@.skip(old(b).events@.len() as int),
            final(b).world,
            old(b).cycle as int,
        ),
        folded(old(b).world, final(b).events@.skip(old(b).events@.len() as int), final(b).world),
{
    let ghost w0 = b.world;
    let ghost start = b.events@;
    let ghost cycle = b.cycle as int;
    let ghost mut ws: Seq<World> = seq![w0];
    let ghost mut ess: Seq<Seq<Event>> = Seq::empty();
    proof {
        lemma_folded_none(w0);
        assert(start + Seq::<Event>::empty() =~= start);
    }
    let n = b.world.orgs.len();
    let mut k: usize = 0;
    while k < n
        invariant
            k <= n,
            n == w0.orgs@.len(),
            b.world.wf(),
            purses_bounded(b.world),
            b.tick == old(b).tick,
            b.cycle == old(b).cycle,
            cycle == b.cycle as int,
            b.world.orgs@.len() == n,
            ws.len() == k + 1,
            ess.len() == k,
            ws[0] == w0,
            ws.last() == b.world,
            forall|j: int| 0 <= j < k ==> payroll_step(#[trigger] ws[j], j, accrued@, cycle, ess[j], ws[j + 1]),
            b.events@ == start + ess.flatten_alt(),
            folded(w0, ess.flatten_alt(), b.world),
        decreases n - k,
    {
        let ghost before = b.world;
        let ghost pre = b.events@;
        pay_wages(b, k, accrued);
        let ghost m = b.world;
        let ghost pay = payday(before, k as int, accrued@);
        end_terms(b, k);
        let ghost ends = end_events(
            m.orgs@[k as int].id,
            endings(m, m.orgs@[k as int].employees@, cycle, m.params.time.ticks_per_cycle as int),
        );
        proof {
            let step = pay + ends;
            crate::tick::lemma_folded_append(before, pay, m, ends, b.world);
            assert(step.skip(pay.len() as int) =~= ends);
            assert(payroll_step(before, k as int, accrued@, cycle, step, b.world));
            crate::tick::lemma_folded_append(w0, ess.flatten_alt(), before, step, b.world);
            let ws2 = ws.push(b.world);
            let ess2 = ess.push(step);
            assert(ess2.drop_last() =~= ess);
            assert(ess2.flatten_alt() == ess.flatten_alt() + step);
            assert(b.events@ =~= start + ess2.flatten_alt());
            assert forall|j: int| 0 <= j < k + 1 implies payroll_step(#[trigger] ws2[j], j, accrued@, cycle, ess2[j], ws2[j + 1]) by {
                if j < k {
                    assert(ws2[j] == ws[j] && ws2[j + 1] == ws[j + 1] && ess2[j] == ess[j]);
                } else {
                    assert(ws2[j] == before && ws2[j + 1] == b.world && ess2[j] == step);
                }
            }
            ws = ws2;
            ess = ess2;
        }
        k = k + 1;
    }
    proof {
        assert(b.events@.take(start.len() as int) =~= start);
        assert(b.events@.skip(start.len() as int) =~= ess.flatten_alt());
        assert(payroll_run_of(w0, accrued@, ws, ess, b.world, cycle));
    }
}

/// The hours `citizen` worked this cycle at `workplace`, where they hold a
/// position there.
pub open spec fn hours_worked(w: World, workplace: WorkplaceId, citizen: CitizenId) -> Option<int> {
    match find(w.workplaces@, workplace.0) {
        None => None,
        Some(i) => match first(w.workplaces@[i].workers@, worker_is(citizen)) {
            None => None,
            Some(k) => Some(w.workplaces@[i].workers@[k].assignment.cycle_tick_hours as int),
        },
    }
}

/// The hourly rate paid: the contract's, raised to the union floor where
/// one applies.
pub open spec fn hourly_rate(rate: Money, union_floor: Option<Money>) -> int {
    match union_floor {
        Some(f) => if f.0 > rate.0 {
            f.0 as int
        } else {
            rate.0 as int
        },
        None => rate.0 as int,
    }
}

/// The pay accrued this cycle under a contract paying `pay`: nothing without
/// a position; by the hour, the rate times the tick-hours worked over the
/// ticks of a cycle (rounded toward zero); by the piece, `piece_pay`.
pub open spec fn spec_accrued_pay(
    w: World,
    workplace: WorkplaceId,
    citizen: CitizenId,
    pay: Pay,
    union_floor: Option<Money>,
    piece_pay: Money,
) -> int {
    match hours_worked(w, workplace, citizen) {
        None => 0,
        Some(h) => match pay {
            Pay::Hourly(r) => crate::plan::div_toward_zero(
                hourly_rate(r, union_floor) * h,
                w.params.time.ticks_per_cycle as int,
            ),
            Pay::PieceRate(_) => piece_pay.0 as int,
        },
    }
}

/// Whether the hourly product fits in an amount.
pub open spec fn accrued_reckonable(w: World, workplace: WorkplaceId, citizen: CitizenId, pay: Pay, union_floor: Option<Money>) -> bool {
    match (hours_worked(w, workplace, citizen), pay) {
        (Some(h), Pay::Hourly(r)) => crate::apply::fits_i64(hourly_rate(r, union_floor) * h),
        _ => true,
    }
}

/// The tick-hours on a worker list for `m`, where they are on it.
fn hours_on(ws: &Vec<Worker>, m: CitizenId) -> (h: Option<u32>)
    ensures
        h == match first(ws@, worker_is(m)) {
            Some(k) => Some(ws@[k].assignment.cycle_tick_hours),
            None => None::<u32>,
        },
{
    let mut k: usize = 0;
    while k < ws.len()
        invariant
            k <= ws@.len(),
            forall|j: int| 0 <= j < k ==> !(worker_is(m))(#[trigger] ws@[j]),
        decreases ws@.len() - k,
    {
        if ws[k].citizen == m {
            proof {
                assert((worker_is(m))(ws@[k as int]));
                lemma_first(ws@, worker_is(m));
                let j = first(ws@, worker_is(m))->0;
                if j < k {
                    assert(!(worker_is(m))(ws@[j]));
                }
            }
            return Some(ws[k].assignment.cycle_tick_hours);
        }
        k = k + 1;
    }
    proof {
        lemma_first(ws@, worker_is(m));
    }
    None
}

/// Pay accrued this cycle under a contract, from the position's tick-hours.
/// `union_floor` is the collective agreement's wage floor where the citizen
/// belongs to the firm's union and it has an agreement; `piece_pay` is what
/// the piece rate comes to on the output attributed to the citizen.
pub fn accrued_pay(
    world: &World,
    workplace: WorkplaceId,
    citizen: CitizenId,
    pay: Pay,
    union_floor: Option<Money>,
    piece_pay: Money,
) -> (m: Money)
    requires
        world.wf(),
        accrued_reckonable(*world, workplace, citizen, pay, union_floor),
    ensures
        m.0 == spec_accrued_pay(*world, workplace, citizen, pay, union_floor, piece_pay),
{
    let i = match index_of(&world.workplaces, workplace.0) {
        Some(i) => i,
        None => {
            return Money(0);
        },
    };
    let h = match hours_on(&world.workplaces[i].workers, citizen) {
        Some(h) => h,
        None => {
            return Money(0);
        },
    };
    match pay {
        Pay::Hourly(w) => {
            let rate: i64 = match union_floor {
                Some(f) => if f.0 > w.0 {
                    f.0
                } else {
                    w.0
                },
                None => w.0,
            };
            let tpc = world.params.time.ticks_per_cycle as i64;
            let product: i64 = rate * h as i64;
            Money(crate::credit::div_trunc(product, tpc))
        },
        Pay::PieceRate(_) => piece_pay,
    }
}

/// The notice-period wages an employer owes on ending a contract: by the
/// hour, the rate times the most hours times the notice cycles; nothing by
/// the piece.
pub open spec fn notice_wages(pay: Pay, max_hours: u8, notice_cycles: u32) -> int {
    match pay {
        Pay::Hourly(w) => w.0 * max_hours * notice_cycles,
        Pay::PieceRate(_) => 0,
    }
}

/// Whether the notice-period wages can be reckoned in amounts.
pub open spec fn notice_reckonable(pay: Pay, max_hours: u8, notice_cycles: u32) -> bool {
    match pay {
        Pay::Hourly(w) => crate::apply::fits_i64(w.0 * max_hours) && crate::apply::fits_i64(w.0 * max_hours * notice_cycles),
        Pay::PieceRate(_) => true,
    }
}

/// Whether the citizen `actor` ends a contract of `org` as its employer:
/// as the org's manager, acting for that org if for any.
pub open spec fn ends_as_employer(w: World, actor: CitizenId, on_behalf_of: Option<OrgId>, org: OrgId) -> bool {
    match find(w.orgs@, org.0) {
        Some(oi) => w.orgs@[oi].manager == Some(actor) && (on_behalf_of is None || on_behalf_of == Some(org)),
        None => false,
    }
}

/// What ending an employment emits: the contract ends (by the employer or
/// the worker, with the notice pay owed and the pay forfeited), the worker
/// leaves the workplace, and any notice pay is paid from the treasury as far
/// as it reaches, the rest missed.
pub open spec fn termination_events(
    o: Org,
    id: ContractId,
    workplace: WorkplaceId,
    worker: CitizenId,
    by_employer: bool,
    notice_pay: int,
    forfeited: int,
) -> Seq<Event> {
    let ended = seq![
        Event::EmploymentTerminated {
            contract: id,
            by: if by_employer {
                Party::Org(o.id)
            } else {
                Party::Citizen(worker)
            },
            notice_pay: Money(notice_pay as i64),
            forfeited: Money(forfeited as i64),
        },
        Event::Unassigned { workplace, citizen: worker },
    ];
    if notice_pay > 0 {
        let paid = if notice_pay <= o.treasury.0 {
            notice_pay
        } else {
            o.treasury.0 as int
        };
        ended.push(Event::Paid { citizen: worker, org: o.id, contract: Some(id), amount: Money(paid as i64) }) + if paid
            < notice_pay {
            seq![
                Event::PaymentMissed {
                    citizen: worker,
                    org: o.id,
                    contract: id,
                    owed: Money(notice_pay as i64),
                    paid: Money(paid as i64),
                },
            ]
        } else {
            Seq::empty()
        }
    } else {
        ended
    }
}

/// What `TerminateEmployment` answers: the employer pays the notice-period
/// wages plus what has accrued; a worker who leaves forfeits this cycle's
/// accrued pay. Only the two parties may end it.
pub open spec fn spec_terminate_employment(
    w: World,
    actor: Actor,
    on_behalf_of: Option<OrgId>,
    id: ContractId,
    union_floor: Option<Money>,
    piece_pay: Money,
) -> Result<Seq<Event>, RejectCode> {
    match spec_acting_citizen(w, actor) {
        Err(c) => Err(c),
        Ok(ci) => match spec_employment(w, id) {
            Err(c) => Err(c),
            Ok(ki) => {
                let k = w.contracts@[ki];
                match (k.parties, k.body) {
                    (
                        (Party::Org(_), Party::Citizen(worker)),
                        ContractBody::Employment { org, workplace, pay, max_hours, notice_cycles },
                    ) => {
                        let me = w.citizens@[ci].id;
                        let by_employer = ends_as_employer(w, me, on_behalf_of, org);
                        if !by_employer && me != worker {
                            Err(RejectCode::NotParty)
                        } else {
                            let o = w.orgs@[find(w.orgs@, org.0)->0];
                            let accrued = spec_accrued_pay(w, workplace, worker, pay, union_floor, piece_pay);
                            if by_employer {
                                Ok(termination_events(o, id, workplace, worker, true, notice_wages(pay, max_hours, notice_cycles) + accrued, 0))
                            } else {
                                Ok(termination_events(o, id, workplace, worker, false, 0, accrued))
                            }
                        }
                    },
                    _ => Err(RejectCode::UnknownContract),
                }
            },
        },
    }
}

/// Whether ending the contract can be reckoned: its employer exists, the
/// accrued pay and, where the employer ends it, the notice pay fit in amounts.
pub open spec fn termination_reckonable(
    w: World,
    actor: Actor,
    on_behalf_of: Option<OrgId>,
    id: ContractId,
    union_floor: Option<Money>,
    piece_pay: Money,
) -> bool {
    match (spec_acting_citizen(w, actor), spec_employment(w, id)) {
        (Ok(ci), Ok(ki)) => {
            let k = w.contracts@[ki];
            match (k.parties.1, k.body) {
                (Party::Citizen(worker), ContractBody::Employment { org, workplace, pay, max_hours, notice_cycles }) => {
                    &&& find(w.orgs@, org.0) is Some
                    &&& accrued_reckonable(w, workplace, worker, pay, union_floor)
                    &&& ends_as_employer(w, w.citizens@[ci].id, on_behalf_of, org) ==> {
                        &&& notice_reckonable(pay, max_hours, notice_cycles)
                        &&& crate::apply::fits_i64(
                            notice_wages(pay, max_hours, notice_cycles) + spec_accrued_pay(
                                w,
                                workplace,
                                worker,
                                pay,
                                union_floor,
                                piece_pay,
                            ),
                        )
                    }
                },
                _ => true,
            }
        },
        _ => true,
    }
}

/// `TerminateEmployment`: the employer pays the notice-period wages plus
/// what has accrued; a worker who leaves forfeits this cycle's accrued pay.
/// `union_floor` and `piece_pay` are as for `accrued_pay`.
pub fn terminate_employment<C>(
    world: &World,
    envelope: &Envelope<C>,
    id: ContractId,
    union_floor: Option<Money>,
    piece_pay: Money,
) -> (r: Result<Vec<Event>, Reject>)
    requires
        world.wf(),
        termination_reckonable(*world, envelope.actor, envelope.on_behalf_of, id, union_floor, piece_pay),
    ensures
        match (r, spec_terminate_employment(*world, envelope.actor, envelope.on_behalf_of, id, union_floor, piece_pay)) {
            (Ok(v), Ok(s)) => v@ == s,
            (Err(e), Err(code)) => e.code == code,
            _ => false,
        },
{
    let actor = acting_citizen(world, envelope)?;
    let (k, org, workplace, pay, max_hours, notice_cycles) = employment(world, id)?;
    let worker = match (k.parties.0, k.parties.1) {
        (Party::Org(_), Party::Citizen(c)) => c,
        _ => {
            return Err(Reject::new(RejectCode::UnknownContract, say("malformed employment")));
        },
    };
    proof {
        lemma_find(world.orgs@, org.0);
    }
    let oi = index_of(&world.orgs, org.0).unwrap();
    let o = &world.orgs[oi];
    let by_employer = o.manager == Some(actor.id) && match envelope.on_behalf_of {
        None => true,
        Some(x) => x == org,
    };
    if !by_employer && actor.id != worker {
        return Err(Reject::new(RejectCode::NotParty, say("only the worker or the employer terminates")));
    }
    let accrued = accrued_pay(world, workplace, worker, pay, union_floor, piece_pay);
    let (notice_pay, forfeited): (i64, i64) = if by_employer {
        let notice: i64 = match pay {
            Pay::Hourly(w) => w.0 * (max_hours as i64) * (notice_cycles as i64),
            Pay::PieceRate(_) => 0,
        };
        (notice + accrued.0, 0)
    } else {
        (0, accrued.0)
    };
    let mut v: Vec<Event> = Vec::new();
    v.push(
        Event::EmploymentTerminated {
            contract: id,
            by: if by_employer {
                Party::Org(org)
            } else {
                Party::Citizen(worker)
            },
            notice_pay: Money(notice_pay),
            forfeited: Money(forfeited),
        },
    );
    v.push(Event::Unassigned { workplace, citizen: worker });
    if notice_pay > 0 {
        let paid: i64 = if notice_pay <= o.treasury.0 {
            notice_pay
        } else {
            o.treasury.0
        };
        v.push(Event::Paid { citizen: worker, org, contract: Some(id), amount: Money(paid) });
        if paid < notice_pay {
            v.push(Event::PaymentMissed { citizen: worker, org, contract: id, owed: Money(notice_pay), paid: Money(paid) });
        }
    }
    proof {
        let s = spec_terminate_employment(*world, envelope.actor, envelope.on_behalf_of, id, union_floor, piece_pay);
        assert(o.id == org);
        assert(v@ =~= s->Ok_0);
    }
    Ok(v)
}

/// The wage floor for an org's jobs: the society's minimum wage, raised to
/// the collective agreement's floor where one applies.
pub open spec fn wage_floor(w: World, agreed_floor: Option<Money>) -> int {
    let society = match w.policy.minimum_wage {
        Some(m) => m.0 as int,
        None => 0,
    };
    match agreed_floor {
        Some(f) => if f.0 > society {
            f.0 as int
        } else {
            society
        },
        None => society,
    }
}

/// What `OfferEmployment` answers: the manager posts a job ad for one of
/// the org's workplaces, with positive pay at or above the wage floor (a
/// piece rate judged by `piece_hourly`, its hourly equivalent), between one
/// hour and a day's budget, and with places and any term positive.
pub open spec fn spec_offer_employment(
    w: World,
    actor: Actor,
    on_behalf_of: Option<OrgId>,
    org: OrgId,
    workplace: WorkplaceId,
    pay: Pay,
    max_hours: u8,
    term_cycles: Option<u32>,
    notice_cycles: u32,
    places: u32,
    agreed_floor: Option<Money>,
    piece_hourly: Money,
) -> Result<Seq<Event>, RejectCode> {
    match crate::orgs::spec_managed_org(w, actor, on_behalf_of, org) {
        Err(c) => Err(c),
        Ok(oi) => {
            let o = w.orgs@[oi];
            let rate = match pay {
                Pay::Hourly(m) => m.0,
                Pay::PieceRate(m) => m.0,
            };
            let hourly = match pay {
                Pay::Hourly(m) => m.0 as int,
                Pay::PieceRate(_) => piece_hourly.0 as int,
            };
            let floor = wage_floor(w, agreed_floor);
            if o.kind == crate::kinds::OrgKind::Cooperative {
                Err(RejectCode::NotAuthorized)
            } else {
                match crate::orgs::spec_workplace_of_org(w, o, workplace) {
                    Err(c) => Err(c),
                    Ok(_) => if rate <= 0 {
                        Err(RejectCode::InvalidPrice)
                    } else if floor > 0 && hourly < floor {
                        Err(RejectCode::BelowMinimumWage)
                    } else if max_hours == 0 || max_hours > w.params.labor.base_budget_hours {
                        Err(RejectCode::InvalidQuantity)
                    } else if places == 0 || term_cycles == Some(0u32) {
                        Err(RejectCode::InvalidTerm)
                    } else {
                        Ok(
                            seq![
                                Event::EmploymentOffered {
                                    offer: w.next.offer,
                                    body: crate::world::OfferBody::Employment {
                                        org,
                                        workplace,
                                        pay,
                                        max_hours,
                                        term_cycles,
                                        notice_cycles,
                                        places,
                                    },
                                },
                            ],
                        )
                    },
                }
            }
        },
    }
}

/// `OfferEmployment`: the manager posts a job ad for one of the org's
/// workplaces. `agreed_floor` is the collective agreement's wage floor where
/// the org has one; `piece_hourly` is what a piece rate comes to by the hour
/// at the workplace's base output rate.
pub fn offer_employment<C>(
    world: &World,
    envelope: &Envelope<C>,
    org: OrgId,
    workplace: WorkplaceId,
    pay: Pay,
    max_hours: u8,
    term_cycles: Option<u32>,
    notice_cycles: u32,
    places: u32,
    agreed_floor: Option<Money>,
    piece_hourly: Money,
) -> (r: Result<Vec<Event>, Reject>)
    ensures
        match (
            r,
            spec_offer_employment(
                *world,
                envelope.actor,
                envelope.on_behalf_of,
                org,
                workplace,
                pay,
                max_hours,
                term_cycles,
                notice_cycles,
                places,
                agreed_floor,
                piece_hourly,
            ),
        ) {
            (Ok(v), Ok(s)) => v@ == s,
            (Err(e), Err(code)) => e.code == code,
            _ => false,
        },
{
    let o = crate::orgs::managed_org(world, envelope, org)?;
    if o.kind == crate::kinds::OrgKind::Cooperative {
        return Err(Reject::new(RejectCode::NotAuthorized, say("a cooperative admits members; it does not employ (Q86)")));
    }
    crate::orgs::workplace_of_org(world, o, workplace)?;
    let rate = match pay {
        Pay::Hourly(m) => m,
        Pay::PieceRate(m) => m,
    };
    if rate.0 <= 0 {
        return Err(Reject::new(RejectCode::InvalidPrice, say("pay must be positive")));
    }
    let society: i64 = match world.policy.minimum_wage {
        Some(m) => m.0,
        None => 0,
    };
    let floor: i64 = match agreed_floor {
        Some(f) => if f.0 > society {
            f.0
        } else {
            society
        },
        None => society,
    };
    if floor > 0 {
        let hourly = match pay {
            Pay::Hourly(w) => w,
            Pay::PieceRate(_) => piece_hourly,
        };
        if hourly.0 < floor {
            let mut m = String::new();
            crate::message::put_money(&mut m, hourly);
            crate::message::put(&mut m, " an hour is below the minimum wage of ");
            crate::message::put_money(&mut m, Money(floor));
            return Err(Reject::new(RejectCode::BelowMinimumWage, m));
        }
    }
    if max_hours == 0 || max_hours > world.params.labor.base_budget_hours {
        return Err(Reject::new(RejectCode::InvalidQuantity, say("max hours must be 1..=budget")));
    }
    if places == 0 || term_cycles == Some(0u32) {
        return Err(Reject::new(RejectCode::InvalidTerm, say("places and term must be positive")));
    }
    let mut v: Vec<Event> = Vec::new();
    v.push(
        Event::EmploymentOffered {
            offer: world.next.offer,
            body: crate::world::OfferBody::Employment { org, workplace, pay, max_hours, term_cycles, notice_cycles, places },
        },
    );
    proof {
        let s = spec_offer_employment(
            *world,
            envelope.actor,
            envelope.on_behalf_of,
            org,
            workplace,
            pay,
            max_hours,
            term_cycles,
            notice_cycles,
            places,
            agreed_floor,
            piece_hourly,
        );
        assert(v@ =~= s->Ok_0);
    }
    Ok(v)
}

/// Whether a job's commitment is long: its term or its notice period runs
/// beyond the long-contract threshold.
pub open spec fn long_commitment(term_cycles: Option<u32>, notice_cycles: u32, threshold: u32) -> bool {
    (term_cycles matches Some(t) && t > threshold) || notice_cycles > threshold
}

/// What `AcceptEmployment` answers: a citizen takes a place on an open job
/// ad, where a place is left, a destitute citizen is not signing a long
/// contract, the workplace has room, and they do not work there yet; the
/// contract is made and they are assigned under it.
pub open spec fn spec_accept_employment(w: World, actor: Actor, id: crate::ids::OfferId) -> Result<Seq<Event>, RejectCode> {
    match spec_acting_citizen(w, actor) {
        Err(e) => Err(e),
        Ok(ci) => {
            let c = w.citizens@[ci];
            match find(w.offers@, id.0) {
                None => Err(RejectCode::UnknownOffer),
                Some(fi) => match w.offers@[fi].body {
                    crate::world::OfferBody::Employment {
                        org,
                        workplace,
                        pay,
                        max_hours,
                        term_cycles,
                        notice_cycles,
                        places,
                    } => if places == 0 {
                        Err(RejectCode::UnknownOffer)
                    } else if c.flags.options_narrowed && long_commitment(
                        term_cycles,
                        notice_cycles,
                        w.params.contracts.long_contract_cycles,
                    ) {
                        Err(RejectCode::OptionsNarrowed)
                    } else {
                        match crate::orgs::spec_check_room(w, workplace) {
                            Err(e) => Err(e),
                            Ok(wi) => if crate::apply::works_in(w.workplaces@[wi].workers@, c.id) {
                                Err(RejectCode::AlreadyExists)
                            } else {
                                let k = w.next.contract;
                                Ok(
                                    seq![
                                        Event::EmploymentAccepted {
                                            contract: k,
                                            offer: id,
                                            org,
                                            workplace,
                                            citizen: c.id,
                                            pay,
                                            max_hours,
                                            term_cycles,
                                            notice_cycles,
                                        },
                                        Event::Assigned { workplace, citizen: c.id, contract: Some(k) },
                                    ],
                                )
                            },
                        }
                    },
                    _ => Err(RejectCode::UnknownOffer),
                },
            }
        },
    }
}

/// `AcceptEmployment`: a citizen takes a place on an open job ad.
pub fn accept_employment<C>(world: &World, envelope: &Envelope<C>, id: crate::ids::OfferId) -> (r: Result<Vec<Event>, Reject>)
    ensures
        match (r, spec_accept_employment(*world, envelope.actor, id)) {
            (Ok(v), Ok(s)) => v@ == s,
            (Err(e), Err(code)) => e.code == code,
            _ => false,
        },
{
    let citizen = acting_citizen(world, envelope)?;
    let fi = match index_of(&world.offers, id.0) {
        Some(fi) => fi,
        None => {
            let mut m = say("no offer ");
            crate::message::put_offer(&mut m, id);
            return Err(Reject::new(RejectCode::UnknownOffer, m));
        },
    };
    let (org, workplace, pay, max_hours, term_cycles, notice_cycles, places) = match world.offers[fi].body {
        crate::world::OfferBody::Employment { org, workplace, pay, max_hours, term_cycles, notice_cycles, places } => (
            org,
            workplace,
            pay,
            max_hours,
            term_cycles,
            notice_cycles,
            places,
        ),
        _ => {
            let mut m = say("offer ");
            crate::message::put_offer(&mut m, id);
            put(&mut m, " is not a job");
            return Err(Reject::new(RejectCode::UnknownOffer, m));
        },
    };
    if places == 0 {
        return Err(Reject::new(RejectCode::UnknownOffer, say("no places left")));
    }
    let threshold = world.params.contracts.long_contract_cycles;
    let long = match term_cycles {
        Some(t) => t > threshold,
        None => false,
    } || notice_cycles > threshold;
    if citizen.flags.options_narrowed && long {
        return Err(Reject::new(RejectCode::OptionsNarrowed, say("a destitute citizen cannot sign a long contract")));
    }
    let wp = crate::orgs::check_room(world, workplace)?;
    if crate::norms::works_among(&wp.workers, citizen.id) {
        let mut m = String::new();
        put_citizen(&mut m, citizen.id);
        put(&mut m, " already works at ");
        put_workplace(&mut m, workplace);
        return Err(Reject::new(RejectCode::AlreadyExists, m));
    }
    let contract = world.next.contract;
    let mut v: Vec<Event> = Vec::new();
    v.push(
        Event::EmploymentAccepted {
            contract,
            offer: id,
            org,
            workplace,
            citizen: citizen.id,
            pay,
            max_hours,
            term_cycles,
            notice_cycles,
        },
    );
    v.push(Event::Assigned { workplace, citizen: citizen.id, contract: Some(contract) });
    proof {
        let s = spec_accept_employment(*world, envelope.actor, id);
        assert(v@ =~= s->Ok_0);
    }
    Ok(v)
}

/// What contract `k` has accrued this cycle, with the union floor and the
/// piece-rate pay that apply to it: `accrued_pay` for its worker at its
/// workplace, or nothing where it is no employment of a citizen.
pub open spec fn contract_accrual(w: World, k: ContractId, union_floor: Option<Money>, piece_pay: Money) -> int {
    match find(w.contracts@, k.0) {
        None => 0,
        Some(i) => {
            let c = w.contracts@[i];
            match (c.body, c.parties.1) {
                (ContractBody::Employment { workplace, pay, .. }, Party::Citizen(worker)) => spec_accrued_pay(
                    w,
                    workplace,
                    worker,
                    pay,
                    union_floor,
                    piece_pay,
                ),
                _ => 0,
            }
        },
    }
}

/// Whether a contract's accrual can be reckoned in amounts.
pub open spec fn contract_reckonable(w: World, k: ContractId, union_floor: Option<Money>) -> bool {
    match find(w.contracts@, k.0) {
        None => true,
        Some(i) => {
            let c = w.contracts@[i];
            match (c.body, c.parties.1) {
                (ContractBody::Employment { workplace, pay, .. }, Party::Citizen(worker)) => accrued_reckonable(
                    w,
                    workplace,
                    worker,
                    pay,
                    union_floor,
                ),
                _ => true,
            }
        },
    }
}

/// The pay accrued under each contract of `terms`, in order; each term is a
/// contract with the union floor and the piece-rate pay that apply to it.
pub open spec fn accruals(w: World, terms: Seq<(ContractId, Option<Money>, Money)>) -> Seq<(ContractId, Money)> {
    terms.map_values(
        |t: (ContractId, Option<Money>, Money)| (t.0, Money(contract_accrual(w, t.0, t.1, t.2) as i64)),
    )
}

/// The pay accrued under each contract of `terms`, by `accrued_pay`.
pub fn accrued_by_contract(world: &World, terms: &Vec<(ContractId, Option<Money>, Money)>) -> (r: Vec<(ContractId, Money)>)
    requires
        world.wf(),
        forall|i: int| 0 <= i < terms@.len() ==> contract_reckonable(*world, (#[trigger] terms@[i]).0, terms@[i].1),
    ensures
        r@ == accruals(*world, terms@),
{
    let mut r: Vec<(ContractId, Money)> = Vec::new();
    let mut j: usize = 0;
    while j < terms.len()
        invariant
            j <= terms@.len(),
            world.wf(),
            forall|i: int| 0 <= i < terms@.len() ==> contract_reckonable(*world, (#[trigger] terms@[i]).0, terms@[i].1),
            r@ == accruals(*world, terms@.take(j as int)),
        decreases terms@.len() - j,
    {
        let (k, floor, piece) = terms[j];
        let ghost t = terms@[j as int];
        proof {
            assert(contract_reckonable(*world, t.0, t.1));
        }
        let a: Money = match index_of(&world.contracts, k.0) {
            None => Money(0),
            Some(i) => {
                let c = world.contracts[i];
                match (c.body, c.parties.1) {
                    (ContractBody::Employment { workplace, pay, .. }, Party::Citizen(worker)) => accrued_pay(
                        world,
                        workplace,
                        worker,
                        pay,
                        floor,
                        piece,
                    ),
                    _ => Money(0),
                }
            },
        };
        r.push((k, a));
        proof {
            assert(a.0 == contract_accrual(*world, t.0, t.1, t.2));
            assert(accruals(*world, terms@.take(j + 1)) =~= accruals(*world, terms@.take(j as int)).push((k, a)));
        }
        j = j + 1;
    }
    proof {
        assert(terms@.take(terms@.len() as int) =~= terms@);
    }
    r
}

/// Step 8a with each contract's pay reckoned first: `terms` gives, for each
/// contract, the union floor and the piece-rate pay that apply to it; the
/// pay accrued under it is `accrued_pay`'s, and the payroll then runs on it.
pub fn cycle_end_8a_payday(b: &mut TickBuilder, terms: &Vec<(ContractId, Option<Money>, Money)>)
    requires
        old(b).world.wf(),
        purses_bounded(old(b).world),
        forall|i: int|
            0 <= i < terms@.len() ==> contract_reckonable(old(b).world, (#[trigger] terms@[i]).0, terms@[i].1),
    ensures
        final(b).world.wf(),
        purses_bounded(final(b).world),
        final(b).tick == old(b).tick,
        final(b).cycle == old(b).cycle,
        final(b).events@.len() >= old(b).events@.len(),
        final(b).events@.take(old(b).events@.len() as int) == old(b).events@,
        payroll_run(
            old(b).world,
            accruals(old(b).world, terms@),
            final(b).events@.skip(old(b).events@.len() as int),
            final(b).world,
            old(b).cycle as int,
        ),
        folded(old(b).world, final(b).events@.skip(old(b).events@.len() as int), final(b).world),
{
    let accrued = accrued_by_contract(&b.world, terms);
    cycle_end_8a_payroll(b, &accrued);
}

} // verus!
