//! The Public Investment Bank: a society-owned association that lends to
//! cooperatives. This module finds the bank and sizes what it lends against.
use crate::ids::{OrgId, WorkplaceId};
use crate::kinds::{Good, OrgKind};
use crate::ledger::Party;
use crate::market::{last_price, lemma_sum_nonneg, lemma_sum_prefix_le, spec_last_price};
use crate::money::Money;
use crate::sum::{lemma_sum_bounds, lemma_sum_take_all, lemma_sum_take_step, seq_sum};
use crate::table::{find, first, index_of, lemma_find, lemma_first};
use crate::world::{Contract, ContractBody, ContractStatus, Instrument, Offer, OfferBody, Org, Ownership, World};
use vstd::prelude::*;

verus! {

/// Whether an org is the bank: a society-owned association.
pub open spec fn is_bank() -> spec_fn(Org) -> bool {
    |o: Org| o.kind == OrgKind::Association && o.ownership is Society
}

/// The bank, if the society has one: the first society-owned association.
pub open spec fn spec_bank_org(w: World) -> Option<OrgId> {
    match first(w.orgs@, is_bank()) {
        Some(k) => Some(w.orgs@[k].id),
        None => None,
    }
}

/// The bank, if the society has one.
pub fn bank_org(world: &World) -> (r: Option<OrgId>)
    ensures
        r == spec_bank_org(*world),
{
    let os = &world.orgs;
    let mut k: usize = 0;
    while k < os.len()
        invariant
            k <= os@.len(),
            os@ == world.orgs@,
            forall|j: int| 0 <= j < k ==> !(is_bank())(#[trigger] os@[j]),
        decreases os@.len() - k,
    {
        if os[k].kind == OrgKind::Association && matches!(os[k].ownership, Ownership::Society) {
            proof {
                assert((is_bank())(os@[k as int]));
                lemma_first(os@, is_bank());
                let j = first(os@, is_bank())->0;
                if j < k {
                    assert(!(is_bank())(os@[j]));
                }
            }
            return Some(os[k].id);
        }
        k = k + 1;
    }
    proof {
        lemma_first(os@, is_bank());
    }
    None
}

/// Machines installed at a listed workplace, where it exists.
pub open spec fn machines_at(w: World) -> spec_fn(WorkplaceId) -> int {
    |x: WorkplaceId|
        match find(w.workplaces@, x.0) {
            Some(i) => w.workplaces@[i].machines as int,
            None => 0,
        }
}

/// Machines installed across an org's workplaces.
pub open spec fn installed_at(w: World, o: Org) -> int {
    seq_sum(o.workplaces@, machines_at(w))
}

/// The value of an org's installed machines at the last machines price (none
/// where there is no price, and nothing where the org does not exist).
pub open spec fn spec_machine_value(w: World, org: OrgId) -> int {
    match find(w.orgs@, org.0) {
        Some(i) => {
            let price = match spec_last_price(w, Instrument::Good(Good::Machines)) {
                Some(p) => p.0 as int,
                None => 0,
            };
            price * installed_at(w, w.orgs@[i])
        },
        None => 0,
    }
}

/// Machines across a list of workplaces.
pub(crate) fn machines_sum(world: &World, list: &Vec<WorkplaceId>) -> (r: u32)
    requires
        seq_sum(list@, machines_at(*world)) <= u32::MAX,
    ensures
        r == seq_sum(list@, machines_at(*world)),
{
    proof {
        assert forall|j: int| 0 <= j < list@.len() implies 0 <= #[trigger] machines_at(*world)(list@[j]) by {}
    }
    let mut total: u32 = 0;
    let mut k: usize = 0;
    while k < list.len()
        invariant
            k <= list@.len(),
            total == seq_sum(list@.take(k as int), machines_at(*world)),
            seq_sum(list@, machines_at(*world)) <= u32::MAX,
            forall|j: int| 0 <= j < list@.len() ==> 0 <= #[trigger] machines_at(*world)(list@[j]),
        decreases list@.len() - k,
    {
        proof {
            lemma_sum_take_step(list@, machines_at(*world), k as int);
            lemma_sum_prefix_le(list@, machines_at(*world), (k + 1) as int);
        }
        let x = list[k];
        let here: u32 = match index_of(&world.workplaces, x.0) {
            Some(i) => world.workplaces[i].machines,
            None => 0,
        };
        assert(here == machines_at(*world)(x));
        total = total + here;
        k = k + 1;
    }
    proof {
        lemma_sum_take_all(list@, machines_at(*world));
    }
    total
}

/// The value of a coop's installed machines at the last machines price.
pub fn machine_value(world: &World, org: OrgId) -> (m: Money)
    requires
        find(world.orgs@, org.0) matches Some(i) ==> installed_at(*world, world.orgs@[i]) <= u32::MAX,
        i64::MIN <= spec_machine_value(*world, org) <= i64::MAX,
    ensures
        m.0 == spec_machine_value(*world, org),
{
    let i = match index_of(&world.orgs, org.0) {
        Some(i) => i,
        None => {
            return Money(0);
        },
    };
    let machines = machines_sum(world, &world.orgs[i].workplaces);
    let price = match last_price(world, Instrument::Good(Good::Machines)) {
        Some(p) => p,
        None => Money(0),
    };
    Money(price.0 * machines as i64)
}

/// Whether a contract is an active loan from `bank` to `org`.
pub open spec fn bank_loan(k: Contract, bank: OrgId, org: OrgId) -> bool {
    &&& k.status == ContractStatus::Active
    &&& k.parties.0 == Party::Org(bank)
    &&& k.parties.1 == Party::Org(org)
    &&& k.body is Credit
}

/// Whether the coop has an open loan from the bank.
pub open spec fn spec_open_bank_loan(w: World, bank: OrgId, org: OrgId) -> bool {
    exists|j: int| 0 <= j < w.contracts@.len() && bank_loan(#[trigger] w.contracts@[j], bank, org)
}

/// A coop's open loan from the bank, if any.
pub fn open_bank_loan(world: &World, bank: OrgId, org: OrgId) -> (b: bool)
    ensures
        b == spec_open_bank_loan(*world, bank, org),
{
    let ks = &world.contracts;
    let mut i: usize = 0;
    while i < ks.len()
        invariant
            i <= ks@.len(),
            ks@ == world.contracts@,
            forall|j: int| 0 <= j < i ==> !bank_loan(#[trigger] ks@[j], bank, org),
        decreases ks@.len() - i,
    {
        let k = ks[i];
        if k.status == ContractStatus::Active && k.parties.0 == Party::Org(bank) && k.parties.1 == Party::Org(org)
            && matches!(k.body, ContractBody::Credit { .. }) {
            assert(bank_loan(ks@[i as int], bank, org));
            return true;
        }
        i = i + 1;
    }
    false
}

/// Whether an offer is the org's application to the bank.
pub open spec fn applies(f: Offer, org: OrgId) -> bool {
    f.body matches OfferBody::BankLoan { org: x, .. } && x == org
}

/// Whether the coop has an application pending.
pub open spec fn spec_pending_application(w: World, org: OrgId) -> bool {
    exists|j: int| 0 <= j < w.offers@.len() && applies(#[trigger] w.offers@[j], org)
}

/// A coop's pending application, if any.
pub fn pending_application(world: &World, org: OrgId) -> (b: bool)
    ensures
        b == spec_pending_application(*world, org),
{
    let fs = &world.offers;
    let mut i: usize = 0;
    while i < fs.len()
        invariant
            i <= fs@.len(),
            fs@ == world.offers@,
            forall|j: int| 0 <= j < i ==> !applies(#[trigger] fs@[j], org),
        decreases fs@.len() - i,
    {
        if let OfferBody::BankLoan { org: x, .. } = fs[i].body {
            if x == org {
                assert(applies(fs@[i as int], org));
                return true;
            }
        }
        i = i + 1;
    }
    false
}

/// What an active loan from `bank` has left to repay: installment × installments left.
pub open spec fn owed_to(bank: OrgId) -> spec_fn(Contract) -> int {
    |k: Contract|
        if k.status == ContractStatus::Active && k.parties.0 == Party::Org(bank) {
            match k.body {
                ContractBody::Credit { installment, installments_left, .. } => installment.0 * installments_left,
                _ => 0,
            }
        } else {
            0
        }
}

/// What the bank's loans have left to repay (nothing without a bank).
pub open spec fn spec_loans_outstanding(w: World) -> int {
    match spec_bank_org(w) {
        Some(bank) => seq_sum(w.contracts@, owed_to(bank)),
        None => 0,
    }
}

/// Sum of what `bank`'s loans have left to repay.
fn owed_sum(ks: &Vec<Contract>, bank: OrgId) -> (r: i128)
    requires
        ks@.len() < 0x1_0000_0000,
    ensures
        r == seq_sum(ks@, owed_to(bank)),
{
    proof {
        assert forall|j: int| 0 <= j < ks@.len() implies -0x8000_0000_0000_0000 * 0x1_0000_0000 <= #[trigger] owed_to(
            bank,
        )(ks@[j]) <= 0x7fff_ffff_ffff_ffff * 0x1_0000_0000 by {
            let k = ks@[j];
            if let ContractBody::Credit { installment, installments_left, .. } = k.body {
                let a = installment.0 as int;
                let b = installments_left as int;
                assert(-0x8000_0000_0000_0000 * 0x1_0000_0000 <= a * b <= 0x7fff_ffff_ffff_ffff * 0x1_0000_0000)
                    by (nonlinear_arith)
                    requires -0x8000_0000_0000_0000 <= a <= 0x7fff_ffff_ffff_ffff, 0 <= b < 0x1_0000_0000;
            }
        }
    }
    let mut total: i128 = 0;
    let mut i: usize = 0;
    while i < ks.len()
        invariant
            i <= ks@.len(),
            ks@.len() < 0x1_0000_0000,
            total == seq_sum(ks@.take(i as int), owed_to(bank)),
            forall|j: int| 0 <= j < ks@.len() ==> -0x8000_0000_0000_0000 * 0x1_0000_0000 <= #[trigger] owed_to(bank)(ks@[j])
                <= 0x7fff_ffff_ffff_ffff * 0x1_0000_0000,
        decreases ks@.len() - i,
    {
        proof {
            lemma_sum_take_step(ks@, owed_to(bank), i as int);
            assert forall|j: int| 0 <= j < ks@.take(i + 1).len() implies -0x8000_0000_0000_0000 * 0x1_0000_0000 <= #[trigger] owed_to(
                bank,
            )(ks@.take(i + 1)[j]) <= 0x7fff_ffff_ffff_ffff * 0x1_0000_0000 by {
                assert(ks@.take(i + 1)[j] == ks@[j]);
            }
            lemma_sum_bounds(ks@.take(i + 1), owed_to(bank), -0x8000_0000_0000_0000 * 0x1_0000_0000, (0x7fff_ffff_ffff_ffff * 0x1_0000_0000) as int);
            let n = i + 1;
            assert(n * (-0x8000_0000_0000_0000 * 0x1_0000_0000) >= -0x8000_0000_0000_0000 * 0x1_0000_0000 * 0x1_0000_0000
                && n * (0x7fff_ffff_ffff_ffff * 0x1_0000_0000) <= 0x7fff_ffff_ffff_ffff * 0x1_0000_0000 * 0x1_0000_0000)
                by (nonlinear_arith)
                requires 0 <= n <= 0x1_0000_0000;
        }
        let k = ks[i];
        let here: i128 = if k.status == ContractStatus::Active && k.parties.0 == Party::Org(bank) {
            match k.body {
                ContractBody::Credit { installment, installments_left, .. } => {
                    installment.0 as i128 * installments_left as i128
                },
                _ => 0,
            }
        } else {
            0
        };
        assert(here == owed_to(bank)(k));
        total = total + here;
        i = i + 1;
    }
    proof {
        lemma_sum_take_all(ks@, owed_to(bank));
    }
    total
}

/// The money the bank's loans have outstanding.
pub fn loans_outstanding(world: &World) -> (m: Money)
    requires
        world.contracts@.len() < 0x1_0000_0000,
        i64::MIN <= spec_loans_outstanding(*world) <= i64::MAX,
    ensures
        m.0 == spec_loans_outstanding(*world),
{
    let bank = match bank_org(world) {
        Some(b) => b,
        None => {
            return Money(0);
        },
    };
    let total = owed_sum(&world.contracts, bank);
    Money(total as i64)
}

} // verus!
