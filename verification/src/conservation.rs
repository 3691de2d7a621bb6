//! The books balance: applying an event whose producer's checks hold keeps
//! every holder solvent, money held equal to minted less burned, every good
//! held equal to what the ledger expects, and every share registry whole.
use crate::apply::{
    admissible, applied, citizen_changed, employee_dropped, employment_ended, left, missed_payment, no_dividend,
    occupied_via, payment_missed, row_related, with_home, counted, counted_all, credited, creditable, debitable, debited,
    depreciated_via, dormancy_via, flags_set, founded_via, has_citizen, has_org, holder, is_added_workplace,
    is_founded_org, is_joined_citizen, joined, minted_meta, moved_via, movable, org_changed, org_of_workplace,
    produced_count, produced_inventory, produced_meta, production, row_changed, same_ownership, sat_sub, seeded_meta,
    seeded_via, upserted, with_balance, with_dividend, with_dormant, with_flags, with_inventory, with_machines,
    with_manager, with_pantry, with_seen, with_treasury, workplace_added_via, workplace_listed,
};
use crate::event::Event;
use crate::kinds::Good;
use crate::ledger::{
    registry_total, escrowed_shares, citizens_money, orgs_money, escrow_money, citizens_goods, orgs_goods, balance_of, conserved, escrow_goods, goods_held, installed_machines, inventory_of, machines_of, money_held,
    pantry_of, shares_balanced, treasury_of,
};
use crate::ledger::{Asset, Holder};
use crate::sum::{lemma_sum_insert, lemma_sum_pointwise, lemma_sum_update};
use crate::table::{find, lemma_find, lemma_update_keeps_ids, Keyed};
use crate::world::{Citizen, Org, Ownership, Workplace, World};
use vstd::prelude::*;

verus! {

/// No citizen and no org is in debt.
pub open spec fn solvent(w: World) -> bool {
    &&& forall|i: int| 0 <= i < w.citizens@.len() ==> #[trigger] w.citizens@[i].household.balance.0 >= 0
    &&& forall|i: int| 0 <= i < w.orgs@.len() ==> #[trigger] w.orgs@[i].treasury.0 >= 0
}

/// Every share registry adds up.
pub open spec fn registries_balanced(w: World) -> bool {
    forall|i: int| 0 <= i < w.orgs@.len() ==> shares_balanced(w, #[trigger] w.orgs@[i])
}

/// `n` has the same orgs, by id and ownership, and the same share escrow as `o`.
pub open spec fn registries_kept(o: World, n: World) -> bool {
    &&& n.share_escrow == o.share_escrow
    &&& n.orgs@.len() == o.orgs@.len()
    &&& forall|i: int|
        0 <= i < o.orgs@.len() ==> (#[trigger] n.orgs@[i]).id == o.orgs@[i].id && n.orgs@[i].ownership
            == o.orgs@[i].ownership
}

/// Kept registries stay balanced.
pub proof fn lemma_registries_kept(o: World, n: World)
    requires
        registries_kept(o, n),
        registries_balanced(o),
    ensures
        registries_balanced(n),
{
    assert forall|i: int| 0 <= i < n.orgs@.len() implies shares_balanced(n, #[trigger] n.orgs@[i]) by {
        assert(shares_balanced(o, o.orgs@[i]));
    }
}

/// Money `h` holds, where it can hold money.
pub open spec fn money_in(w: World, h: Holder) -> Option<int> {
    match h {
        Holder::Citizen(id) => match find(w.citizens@, id.0) {
            Some(i) => Some(w.citizens@[i].household.balance.0 as int),
            None => None,
        },
        Holder::Org(id) => match find(w.orgs@, id.0) {
            Some(i) => Some(w.orgs@[i].treasury.0 as int),
            None => None,
        },
        Holder::StateStock => match w.state_stock {
            Some(s) => Some(s.till.0 as int),
            None => None,
        },
        Holder::Treasury => Some(w.treasury.0 as int),
        _ => None,
    }
}

/// Units of `g` that `h` holds, where it can hold them.
pub open spec fn goods_in(w: World, h: Holder, g: Good) -> Option<int> {
    match h {
        Holder::Citizen(id) => match find(w.citizens@, id.0) {
            Some(i) => Some(w.citizens@[i].household.pantry.spec_get(g) as int),
            None => None,
        },
        Holder::Org(id) => match find(w.orgs@, id.0) {
            Some(i) => Some(w.orgs@[i].inventory.spec_get(g) as int),
            None => None,
        },
        Holder::Workplace(id) => if g == Good::Machines {
            match find(w.workplaces@, id.0) {
                Some(i) => Some(w.workplaces@[i].machines as int),
                None => None,
            }
        } else {
            None
        },
        Holder::Store => match w.store {
            Some(s) => Some(s.stock.spec_get(g) as int),
            None => None,
        },
        Holder::StateStock => match w.state_stock {
            Some(s) => Some(s.stock.spec_get(g) as int),
            None => None,
        },
        _ => None,
    }
}

/// Replacing a citizen's row changes the books by the row's difference.
pub proof fn lemma_citizen_row(o: World, n: World, i: int, x: Citizen)
    requires
        n == (World { citizens: n.citizens, ..o }),
        0 <= i < o.citizens@.len(),
        n.citizens@ == o.citizens@.update(i, x),
    ensures
        money_held(n) == money_held(o) - o.citizens@[i].household.balance.0 + x.household.balance.0,
        forall|g: Good|
            #[trigger] goods_held(n, g) == goods_held(o, g) - o.citizens@[i].household.pantry.spec_get(g)
                + x.household.pantry.spec_get(g),
        solvent(o) && x.household.balance.0 >= 0 ==> solvent(n),
        registries_kept(o, n),
{
    lemma_sum_update(o.citizens@, balance_of(), i, x);
    assert forall|g: Good|
        #[trigger] goods_held(n, g) == goods_held(o, g) - o.citizens@[i].household.pantry.spec_get(g)
            + x.household.pantry.spec_get(g) by {
        lemma_sum_update(o.citizens@, pantry_of(g), i, x);
    }
}

/// Replacing an org's row (same id and ownership) changes the books by the row's difference.
pub proof fn lemma_org_row(o: World, n: World, i: int, x: Org)
    requires
        n == (World { orgs: n.orgs, ..o }),
        0 <= i < o.orgs@.len(),
        n.orgs@ == o.orgs@.update(i, x),
        x.id == o.orgs@[i].id,
        x.ownership == o.orgs@[i].ownership,
    ensures
        money_held(n) == money_held(o) - o.orgs@[i].treasury.0 + x.treasury.0,
        forall|g: Good|
            #[trigger] goods_held(n, g) == goods_held(o, g) - o.orgs@[i].inventory.spec_get(g) + x.inventory.spec_get(
                g,
            ),
        solvent(o) && x.treasury.0 >= 0 ==> solvent(n),
        registries_kept(o, n),
{
    lemma_sum_update(o.orgs@, treasury_of(), i, x);
    assert forall|g: Good|
        #[trigger] goods_held(n, g) == goods_held(o, g) - o.orgs@[i].inventory.spec_get(g) + x.inventory.spec_get(g) by {
        lemma_sum_update(o.orgs@, inventory_of(g), i, x);
    }
}

/// Replacing a workplace's row changes the machines held by the row's difference.
proof fn lemma_workplace_row(o: World, n: World, i: int, x: Workplace)
    requires
        n == (World { workplaces: n.workplaces, ..o }),
        0 <= i < o.workplaces@.len(),
        n.workplaces@ == o.workplaces@.update(i, x),
    ensures
        money_held(n) == money_held(o),
        forall|g: Good|
            #[trigger] goods_held(n, g) == goods_held(o, g) + if g == Good::Machines {
                x.machines - o.workplaces@[i].machines
            } else {
                0
            },
        solvent(o) ==> solvent(n),
        registries_kept(o, n),
{
    lemma_sum_update(o.workplaces@, machines_of(), i, x);
}

/// Money that moves to or from `h` when `a` does: its amount where `h`
/// exists and holds money, else nothing.
pub open spec fn money_moved(w: World, h: Holder, a: Asset) -> int {
    match a {
        Asset::Money(m) => if money_in(w, h) is Some {
            m.0 as int
        } else {
            0
        },
        Asset::Good(_, _) => 0,
    }
}

/// Units of `g` that move to or from `h` when `a` does.
pub open spec fn goods_moved(w: World, h: Holder, a: Asset, g: Good) -> int {
    match a {
        Asset::Good(g0, q) => if g0 == g && goods_in(w, h, g) is Some {
            q as int
        } else {
            0
        },
        Asset::Money(_) => 0,
    }
}

/// Whether `a`'s amount is not negative.
pub open spec fn nonnegative(a: Asset) -> bool {
    match a {
        Asset::Money(m) => m.0 >= 0,
        Asset::Good(_, _) => true,
    }
}

/// Whether `h` holds at least `a` (trivially where it holds none of its kind).
pub open spec fn covers(w: World, h: Holder, a: Asset) -> bool {
    match a {
        Asset::Money(m) => money_in(w, h) matches Some(b) ==> b >= m.0,
        Asset::Good(g, q) => goods_in(w, h, g) matches Some(v) ==> v >= q,
    }
}

/// What a credit does to the books: money and goods held grow by what `h`
/// takes of `a`, and nothing else in the balance changes.
pub proof fn lemma_credit_books(o: World, n: World, h: Holder, a: Asset)
    requires
        o.wf(),
        creditable(o, h, a),
        credited(o, n, h, a),
    ensures
        n.ledger_meta == o.ledger_meta,
        registries_kept(o, n),
        money_held(n) == money_held(o) + money_moved(o, h, a),
        forall|g: Good| #[trigger] goods_held(n, g) == goods_held(o, g) + goods_moved(o, h, a, g),
        solvent(o) && nonnegative(a) ==> solvent(n),
{
    match (h, a) {
        (Holder::Citizen(id), Asset::Money(m)) => {
            lemma_find(o.citizens@, id.0);
            if let Some(i) = find(o.citizens@, id.0) {
                assert(o.citizens@[i].id == id);
                let c = o.citizens@[i];
                lemma_citizen_row(o, n, i, with_balance(c, c.household.balance.0 + m.0));
            }
        },
        (Holder::Citizen(id), Asset::Good(g0, q)) => {
            lemma_find(o.citizens@, id.0);
            if let Some(i) = find(o.citizens@, id.0) {
                assert(o.citizens@[i].id == id);
                let c = o.citizens@[i];
                lemma_citizen_row(o, n, i, with_pantry(c, g0, (c.household.pantry.spec_get(g0) + q) as u32));
            }
        },
        (Holder::Org(id), Asset::Money(m)) => {
            lemma_find(o.orgs@, id.0);
            if let Some(i) = find(o.orgs@, id.0) {
                assert(o.orgs@[i].id == id);
                let r = o.orgs@[i];
                lemma_org_row(o, n, i, with_treasury(r, r.treasury.0 + m.0));
            }
        },
        (Holder::Org(id), Asset::Good(g0, q)) => {
            lemma_find(o.orgs@, id.0);
            if let Some(i) = find(o.orgs@, id.0) {
                assert(o.orgs@[i].id == id);
                let r = o.orgs@[i];
                lemma_org_row(o, n, i, with_inventory(r, g0, (r.inventory.spec_get(g0) + q) as u32));
            }
        },
        (Holder::Workplace(id), Asset::Good(Good::Machines, q)) => {
            lemma_find(o.workplaces@, id.0);
            if let Some(i) = find(o.workplaces@, id.0) {
                assert(o.workplaces@[i].id == id);
                let x = o.workplaces@[i];
                lemma_workplace_row(o, n, i, with_machines(x, (x.machines + q) as u32));
            }
        },
        _ => {},
    }
}

/// What a debit that `h` covers does to the books: money and goods held
/// shrink by what `h` gives of `a`, and nothing else in the balance changes.
#[verifier::spinoff_prover]
#[verifier::rlimit(40)]
pub proof fn lemma_debit_books(o: World, n: World, h: Holder, a: Asset)
    requires
        o.wf(),
        debitable(o, h, a),
        covers(o, h, a),
        debited(o, n, h, a),
    ensures
        n.ledger_meta == o.ledger_meta,
        registries_kept(o, n),
        money_held(n) == money_held(o) - money_moved(o, h, a),
        forall|g: Good| #[trigger] goods_held(n, g) == goods_held(o, g) - goods_moved(o, h, a, g),
        solvent(o) ==> solvent(n),
{
    match (h, a) {
        (Holder::Citizen(id), Asset::Money(m)) => {
            lemma_find(o.citizens@, id.0);
            if let Some(i) = find(o.citizens@, id.0) {
                assert(o.citizens@[i].id == id);
                let c = o.citizens@[i];
                lemma_citizen_row(o, n, i, with_balance(c, c.household.balance.0 - m.0));
            }
        },
        (Holder::Citizen(id), Asset::Good(g0, q)) => {
            lemma_find(o.citizens@, id.0);
            if let Some(i) = find(o.citizens@, id.0) {
                let c = o.citizens@[i];
                lemma_citizen_row(o, n, i, with_pantry(c, g0, sat_sub(c.household.pantry.spec_get(g0), q)));
            }
        },
        (Holder::Org(id), Asset::Money(m)) => {
            lemma_find(o.orgs@, id.0);
            if let Some(i) = find(o.orgs@, id.0) {
                assert(o.orgs@[i].id == id);
                let r = o.orgs@[i];
                lemma_org_row(o, n, i, with_treasury(r, r.treasury.0 - m.0));
            }
        },
        (Holder::Org(id), Asset::Good(g0, q)) => {
            lemma_find(o.orgs@, id.0);
            if let Some(i) = find(o.orgs@, id.0) {
                let r = o.orgs@[i];
                lemma_org_row(o, n, i, with_inventory(r, g0, sat_sub(r.inventory.spec_get(g0), q)));
            }
        },
        (Holder::Workplace(id), Asset::Good(Good::Machines, q)) => {
            lemma_find(o.workplaces@, id.0);
            if let Some(i) = find(o.workplaces@, id.0) {
                let x = o.workplaces@[i];
                lemma_workplace_row(o, n, i, with_machines(x, sat_sub(x.machines, q)));
            }
        },
        _ => {},
    }
}

/// Whether `h` exists and can hold `a`'s kind.
pub open spec fn takes(w: World, h: Holder, a: Asset) -> bool {
    match a {
        Asset::Money(_) => money_in(w, h) is Some,
        Asset::Good(g, _) => goods_in(w, h, g) is Some,
    }
}

/// A debit leaves every holder in place.
proof fn lemma_debit_keeps_holders(o: World, n: World, h: Holder, a: Asset)
    requires
        o.wf(),
        debited(o, n, h, a),
    ensures
        forall|h2: Holder| #[trigger] money_in(n, h2) is Some <==> money_in(o, h2) is Some,
        forall|h2: Holder, g: Good| #[trigger] goods_in(n, h2, g) is Some <==> goods_in(o, h2, g) is Some,
{
    match (h, a) {
        (Holder::Citizen(id), _) => {
            lemma_find(o.citizens@, id.0);
            if let Some(i) = find(o.citizens@, id.0) {
                lemma_update_keeps_ids(o.citizens@, i, n.citizens@[i]);
            }
        },
        (Holder::Org(id), _) => {
            lemma_find(o.orgs@, id.0);
            if let Some(i) = find(o.orgs@, id.0) {
                lemma_update_keeps_ids(o.orgs@, i, n.orgs@[i]);
                crate::apply::lemma_org_row_lists(o.orgs@, i, n.orgs@[i]);
            }
        },
        (Holder::Workplace(id), Asset::Good(Good::Machines, _)) => {
            lemma_find(o.workplaces@, id.0);
            if let Some(i) = find(o.workplaces@, id.0) {
                lemma_update_keeps_ids(o.workplaces@, i, n.workplaces@[i]);
                crate::apply::lemma_workplace_row_lists(o.workplaces@, i, n.workplaces@[i]);
            }
        },
        _ => {},
    }
}

/// A move between two holders that both take `a`, and that the giver covers,
/// keeps the books balanced.
proof fn lemma_move_conserves(o: World, mid: World, n: World, from: Holder, to: Holder, a: Asset)
    requires
        o.wf(),
        conserved(o),
        movable(o, from, to, a),
        takes(o, from, a),
        takes(o, to, a),
        covers(o, from, a),
        nonnegative(a),
        moved_via(o, mid, n, from, to, a),
    ensures
        conserved(n),
{
    lemma_debit_books(o, mid, from, a);
    lemma_debit_keeps_holders(o, mid, from, a);
    lemma_update_wf_debit(o, mid, from, a);
    crate::apply::lemma_creditable_after_debit(o, mid, from, to, a);
    lemma_credit_books(mid, n, to, a);
    lemma_registries_kept(o, mid);
    lemma_registries_kept(mid, n);
}

/// A debit keeps the tables well formed.
pub proof fn lemma_update_wf_debit(o: World, n: World, h: Holder, a: Asset)
    requires
        o.wf(),
        debited(o, n, h, a),
    ensures
        n.wf(),
{
    match (h, a) {
        (Holder::Citizen(id), _) => {
            lemma_find(o.citizens@, id.0);
            if let Some(i) = find(o.citizens@, id.0) {
                lemma_update_keeps_ids(o.citizens@, i, n.citizens@[i]);
            }
        },
        (Holder::Org(id), _) => {
            lemma_find(o.orgs@, id.0);
            if let Some(i) = find(o.orgs@, id.0) {
                lemma_update_keeps_ids(o.orgs@, i, n.orgs@[i]);
                crate::apply::lemma_org_row_lists(o.orgs@, i, n.orgs@[i]);
            }
        },
        (Holder::Workplace(id), Asset::Good(Good::Machines, _)) => {
            lemma_find(o.workplaces@, id.0);
            if let Some(i) = find(o.workplaces@, id.0) {
                lemma_update_keeps_ids(o.workplaces@, i, n.workplaces@[i]);
                crate::apply::lemma_workplace_row_lists(o.workplaces@, i, n.workplaces@[i]);
            }
        },
        _ => {},
    }
}

/// A change to one citizen that leaves their money and pantry alone keeps
/// the books balanced.
proof fn lemma_citizen_change_conserves(o: World, n: World, id: crate::ids::CitizenId, f: spec_fn(Citizen) -> Citizen)
    requires
        conserved(o),
        citizen_changed(o, n, id, f),
        forall|c: Citizen|
            #[trigger] f(c).household.balance == c.household.balance && f(c).household.pantry == c.household.pantry,
    ensures
        conserved(n),
{
    if let Some(i) = find(o.citizens@, id.0) {
        lemma_find(o.citizens@, id.0);
        lemma_citizen_row(o, n, i, f(o.citizens@[i]));
        lemma_registries_kept(o, n);
    }
}

/// A change to one org that leaves its id, ownership, money and inventory
/// alone keeps the books balanced.
proof fn lemma_org_change_conserves(o: World, n: World, id: crate::ids::OrgId, f: spec_fn(Org) -> Org)
    requires
        conserved(o),
        org_changed(o, n, id, f),
        forall|r: Org|
            #[trigger] f(r).id == r.id && f(r).ownership == r.ownership && f(r).treasury == r.treasury && f(r).inventory
                == r.inventory,
    ensures
        conserved(n),
{
    if let Some(i) = find(o.orgs@, id.0) {
        lemma_find(o.orgs@, id.0);
        lemma_org_row(o, n, i, f(o.orgs@[i]));
        lemma_registries_kept(o, n);
    }
}

/// The checks an event's producer makes that keep the books balanced:
/// holders that pay exist and can cover what they pay, holders that receive
/// exist, amounts are not negative, and what is created is new.
pub open spec fn sound(w: World, e: Event) -> bool {
    match e {
        Event::Seeded { holder, asset } => takes(w, holder, asset) && nonnegative(asset),
        Event::CitizenJoined { citizen, endowment, .. } => !has_citizen(w, citizen) && endowment.0 >= 0,
        Event::HouseholderJoined { citizen, endowment, .. } => !has_citizen(w, citizen) && endowment.0 >= 0,
        Event::Transferred { from, to, asset, .. } => {
            &&& takes(w, holder(from), asset)
            &&& takes(w, holder(to), asset)
            &&& covers(w, holder(from), asset)
            &&& nonnegative(asset)
        },
        Event::OrgFounded { org, founder, ownership, fee_burned, .. } => {
            &&& !has_org(w, org)
            &&& fee_burned.0 >= 0
            &&& match founder {
                Some(f) => has_citizen(w, f) && covers(w, Holder::Citizen(f), Asset::Money(fee_burned)),
                None => fee_burned.0 == 0,
            }
            &&& match ownership {
                Ownership::Shares { issued, holdings } => registry_total(holdings@) + escrowed_shares(
                    w.share_escrow@,
                    org,
                ) == issued,
                _ => true,
            }
        },
        Event::WorkplaceAdded { workplace, org, materials_consumed, .. } => {
            &&& find(w.workplaces@, workplace.0) is None
            &&& goods_in(w, Holder::Org(org), Good::Materials) matches Some(v) && v >= materials_consumed
        },
        Event::DividendPaid { org, citizen, amount } => sound_pay(w, org, citizen, amount),
        Event::Paid { citizen, org, amount, .. } => sound_pay(w, org, citizen, amount),
        Event::MachinesInstalled { workplace, qty } => org_of_workplace(w, workplace) matches Some(org) ==> has_org(
            w,
            org,
        ) && covers(w, Holder::Org(org), Asset::Good(Good::Machines, qty)),
        Event::MachinesUninstalled { workplace, qty } => org_of_workplace(w, workplace) matches Some(org) ==> has_org(
            w,
            org,
        ) && covers(w, Holder::Workplace(workplace), Asset::Good(Good::Machines, qty)),
        Event::MachinesDepreciated { workplace, qty } => goods_in(w, Holder::Workplace(workplace), Good::Machines) matches Some(
            v,
        ) && v >= qty,
        Event::Produced { workplace, inputs_consumed, .. } => org_of_workplace(w, workplace) matches Some(org) ==> {
            &&& has_org(w, org)
            &&& forall|g: Good|
                #[trigger] inputs_consumed.spec_get(g) <= goods_in(w, Holder::Org(org), g)->0
        },
        Event::RentPaid { contract, amount } => sound_under(w, contract, amount),
        Event::CreditInstallment { contract, amount, .. } => sound_under(w, contract, amount),
        Event::DwellingBuilt { org, materials_consumed, .. } => goods_in(w, Holder::Org(org), Good::Materials) matches Some(
            v,
        ) && v >= materials_consumed,
        Event::CreditRepaid { contract } => match find(w.contracts@, contract.0) {
            Some(i) => release_sound(w, contract, w.contracts@[i].parties.1, None),
            None => true,
        },
        Event::CreditDefaulted { contract, collateral_seized } => match (
            find(w.contracts@, contract.0),
            collateral_seized,
        ) {
            (Some(i), Some(crate::world::Collateral::Shares(org, _))) => release_sound(
                w,
                contract,
                w.contracts@[i].parties.0,
                Some(org),
            ),
            _ => true,
        },
        _ => true,
    }
}

/// Whether an org keeps a share registry.
pub open spec fn keeps_registry(w: World, org: crate::ids::OrgId) -> bool {
    find(w.orgs@, org.0) matches Some(i) && w.orgs@[i].ownership is Shares
}

/// A release of shares from escrow lands in the registry they were escrowed
/// from, on a line the receiving party can hold there.
pub open spec fn release_sound(
    w: World,
    id: crate::ids::ContractId,
    party: crate::ledger::Party,
    org: Option<crate::ids::OrgId>,
) -> bool {
    match crate::table::first(w.share_escrow@, crate::apply::held_for(id)) {
        None => true,
        Some(e) => {
            let entry = w.share_escrow@[e];
            &&& org matches Some(g) ==> g == entry.org
            &&& keeps_registry(w, entry.org) ==> crate::shares::spec_holder_of(party, entry.org) is Some
        },
    }
}

/// A payment under a contract: both parties exist and take money, the payer
/// (its second party) has the amount, and the amount is not negative.
pub open spec fn sound_under(w: World, id: crate::ids::ContractId, amount: crate::money::Money) -> bool {
    match find(w.contracts@, id.0) {
        None => true,
        Some(i) => {
            let a = Asset::Money(amount);
            let payer = holder(w.contracts@[i].parties.1);
            let payee = holder(w.contracts@[i].parties.0);
            &&& takes(w, payer, a)
            &&& takes(w, payee, a)
            &&& covers(w, payer, a)
            &&& amount.0 >= 0
        },
    }
}

/// An org pays a citizen money it has.
pub open spec fn sound_pay(w: World, org: crate::ids::OrgId, citizen: crate::ids::CitizenId, amount: crate::money::Money) -> bool {
    &&& has_org(w, org)
    &&& has_citizen(w, citizen)
    &&& amount.0 >= 0
    &&& covers(w, Holder::Org(org), Asset::Money(amount))
}

/// Seeding stock that a holder takes keeps the books balanced.
proof fn lemma_seeded_conserves(o: World, mid: World, n: World, h: Holder, a: Asset)
    requires
        o.wf(),
        conserved(o),
        creditable(o, h, a),
        takes(o, h, a),
        nonnegative(a),
        crate::apply::seed_fits(o.ledger_meta, a),
        seeded_via(o, mid, n, h, a),
    ensures
        conserved(n),
{
    lemma_credit_books(o, mid, h, a);
    lemma_registries_kept(o, mid);
    assert(money_held(n) == n.ledger_meta.spec_expected_money());
    assert forall|g: Good| #[trigger] goods_held(n, g) == n.ledger_meta.spec_expected_goods(g) by {
        assert(goods_held(o, g) == o.ledger_meta.spec_expected_goods(g));
        assert(goods_held(n, g) == goods_held(mid, g));
        assert(goods_held(mid, g) == goods_held(o, g) + goods_moved(o, h, a, g));
        if let Asset::Good(g0, q) = a {
            o.ledger_meta.seeded.lemma_get_set(g0, (o.ledger_meta.seeded.spec_get(g0) + q) as u64, g);
        }
    }
}

/// Depreciating machines a workplace has keeps the books balanced.
proof fn lemma_depreciated_conserves(o: World, mid: World, n: World, wp: crate::ids::WorkplaceId, qty: u32)
    requires
        o.wf(),
        conserved(o),
        goods_in(o, Holder::Workplace(wp), Good::Machines) matches Some(v) && v >= qty,
        o.ledger_meta.depreciated.spec_get(Good::Machines) + qty <= u64::MAX,
        depreciated_via(o, mid, n, wp, qty),
    ensures
        conserved(n),
{
    lemma_debit_books(o, mid, Holder::Workplace(wp), Asset::Good(Good::Machines, qty));
    lemma_registries_kept(o, mid);
    assert forall|g: Good| #[trigger] goods_held(n, g) == n.ledger_meta.spec_expected_goods(g) by {
        assert(goods_held(o, g) == o.ledger_meta.spec_expected_goods(g));
        assert(goods_held(n, g) == goods_held(mid, g));
        assert(goods_held(mid, g) == goods_held(o, g) - goods_moved(o, Holder::Workplace(wp), Asset::Good(Good::Machines, qty), g));
        o.ledger_meta.depreciated.lemma_get_set(Good::Machines, (o.ledger_meta.depreciated.spec_get(Good::Machines) + qty) as u64, g);
    }
}

/// Going dormant or returning keeps the books balanced.
proof fn lemma_dormancy_conserves(
    o: World,
    mid: World,
    n: World,
    c: crate::ids::CitizenId,
    dormant: bool,
    from: crate::world::ContractStatus,
    to: crate::world::ContractStatus,
)
    requires
        conserved(o),
        dormancy_via(o, mid, n, c, dormant, from, to),
    ensures
        conserved(n),
{
    lemma_citizen_change_conserves(o, mid, c, |x: Citizen| with_dormant(x, dormant));
}

/// Letting a worker go moves no money or goods.
proof fn lemma_unassigned_conserves(o: World, mid: World, n: World, wp: crate::ids::WorkplaceId, c: crate::ids::CitizenId)
    requires
        conserved(o),
        crate::apply::unassigned_via(o, mid, n, wp, c),
    ensures
        conserved(n),
{
    if let Some(i) = find(o.workplaces@, wp.0) {
        lemma_find(o.workplaces@, wp.0);
        assert(mid.workplaces@ =~= o.workplaces@.update(i, mid.workplaces@[i]));
        lemma_workplace_row(o, mid, i, mid.workplaces@[i]);
        lemma_registries_kept(o, mid);
    }
    assert(conserved(mid));
    if let Some(j) = find(mid.citizens@, c.0) {
        lemma_find(mid.citizens@, c.0);
        assert(n.citizens@ =~= mid.citizens@.update(j, n.citizens@[j]));
        lemma_citizen_row(mid, n, j, n.citizens@[j]);
        lemma_registries_kept(mid, n);
    }
}

/// Applying an event whose producer's checks hold to a balanced world
/// leaves the world balanced: no one in debt, money held equal to minted less
/// burned, each good held equal to what the ledger expects, and each share
/// registry whole.
pub proof fn lemma_apply_conserves(o: World, n: World, e: Event)
    requires
        o.wf(),
        conserved(o),
        admissible(o, e),
        sound(o, e),
        applied(o, n, e),
    ensures
        conserved(n),
{
    match e {
        Event::SocietyCreated { society_id, seed, preset } => {
            lemma_created_conserves(n, society_id, seed, *preset);
        },
        Event::EpochStarted { .. } => {},
        Event::EpochEnded { .. } => {},
        Event::Seeded { holder, asset } => {
            let mid = choose|mid: World| seeded_via(o, mid, n, holder, asset);
            lemma_seeded_conserves(o, mid, n, holder, asset);
        },
        Event::CitizenJoined { citizen, handle, kind, endowment, dwelling } => {
            lemma_joined_conserves(o, n, citizen, handle@, kind, endowment, dwelling);
        },
        Event::HouseholderJoined { citizen, handle, endowment, dwelling } => {
            lemma_joined_conserves(o, n, citizen, handle@, crate::kinds::CitizenKind::Householder, endowment, dwelling);
        },
        Event::CitizenSeen { citizen, tick, .. } => {
            lemma_citizen_change_conserves(o, n, citizen, |c: Citizen| with_seen(c, tick));
        },
        Event::CitizenDormant { citizen } => {
            let mid = choose|mid: World|
                dormancy_via(
                    o,
                    mid,
                    n,
                    citizen,
                    true,
                    crate::world::ContractStatus::Active,
                    crate::world::ContractStatus::Suspended,
                );
            lemma_dormancy_conserves(
                o,
                mid,
                n,
                citizen,
                true,
                crate::world::ContractStatus::Active,
                crate::world::ContractStatus::Suspended,
            );
        },
        Event::CitizenReturned { citizen } => {
            let mid = choose|mid: World|
                dormancy_via(
                    o,
                    mid,
                    n,
                    citizen,
                    false,
                    crate::world::ContractStatus::Suspended,
                    crate::world::ContractStatus::Active,
                );
            lemma_dormancy_conserves(
                o,
                mid,
                n,
                citizen,
                false,
                crate::world::ContractStatus::Suspended,
                crate::world::ContractStatus::Active,
            );
        },
        Event::Transferred { from, to, asset, .. } => {
            let mid = choose|mid: World| moved_via(o, mid, n, holder(from), holder(to), asset);
            lemma_move_conserves(o, mid, n, holder(from), holder(to), asset);
        },
        Event::OrgFounded { org, kind, name, founder, ownership, manager, fee_burned } => {
            let mid = choose|mid: World|
                founded_via(o, mid, n, org, kind, name@, founder, ownership, manager, fee_burned);
            lemma_founded_conserves(o, mid, n, org, kind, name@, founder, ownership, manager, fee_burned);
        },
        Event::WorkplaceAdded { workplace, org, kind, slot, materials_consumed } => {
            let mid = choose|mid: World|
                workplace_added_via(o, mid, n, workplace, org, kind, slot, materials_consumed);
            lemma_workplace_added_conserves(o, mid, n, workplace, org, kind, slot, materials_consumed);
        },
        Event::ManagerAppointed { org, citizen } => {
            lemma_org_change_conserves(o, n, org, |r: Org| with_manager(r, citizen));
        },
        Event::DividendDeclared { org, per_share, .. } => {
            lemma_org_change_conserves(o, n, org, |r: Org| with_dividend(r, per_share));
        },
        Event::DividendPaid { org, citizen, amount } => {
            lemma_pay_conserves(o, n, org, citizen, amount);
        },
        Event::Paid { citizen, org, amount, .. } => {
            lemma_pay_conserves(o, n, org, citizen, amount);
        },
        Event::MachinesInstalled { workplace, qty } => {
            if let Some(org) = org_of_workplace(o, workplace) {
                let a = Asset::Good(Good::Machines, qty);
                let mid = choose|mid: World| moved_via(o, mid, n, Holder::Org(org), Holder::Workplace(workplace), a);
                lemma_find(o.workplaces@, workplace.0);
                lemma_find(o.orgs@, org.0);
                lemma_move_conserves(o, mid, n, Holder::Org(org), Holder::Workplace(workplace), a);
            }
        },
        Event::MachinesUninstalled { workplace, qty } => {
            if let Some(org) = org_of_workplace(o, workplace) {
                let a = Asset::Good(Good::Machines, qty);
                let mid = choose|mid: World| moved_via(o, mid, n, Holder::Workplace(workplace), Holder::Org(org), a);
                lemma_find(o.workplaces@, workplace.0);
                lemma_find(o.orgs@, org.0);
                lemma_move_conserves(o, mid, n, Holder::Workplace(workplace), Holder::Org(org), a);
            }
        },
        Event::MachinesDepreciated { workplace, qty } => {
            let mid = choose|mid: World| depreciated_via(o, mid, n, workplace, qty);
            lemma_depreciated_conserves(o, mid, n, workplace, qty);
        },
        Event::DwellingTransferred { .. } => {},
        Event::Produced { workplace, output, units, inputs_consumed, .. } => {
            lemma_produced_conserves(o, n, workplace, output, units, inputs_consumed);
        },
        Event::MemberLeft { org, citizen } => {
            lemma_org_related_conserves(o, n, org, |a: Org, b: Org| left(a, b, citizen));
        },
        Event::MemberAdmitted { org, citizen } => {
            let m1 = World { orgs: n.orgs, ..o };
            lemma_org_related_conserves(o, m1, org, |a: Org, b: Org| crate::apply::admitted(a, b, citizen));
        },
        Event::Assigned { workplace, citizen, contract } => {
            if let Some(i) = find(o.workplaces@, workplace.0) {
                lemma_find(o.workplaces@, workplace.0);
                assert(n.workplaces@ =~= o.workplaces@.update(i, n.workplaces@[i]));
                lemma_workplace_row(o, n, i, n.workplaces@[i]);
                lemma_registries_kept(o, n);
            }
        },
        Event::Unassigned { workplace, citizen } => {
            let mid = choose|mid: World| crate::apply::unassigned_via(o, mid, n, workplace, citizen);
            lemma_unassigned_conserves(o, mid, n, workplace, citizen);
        },
        Event::PaymentMissed { org, contract, .. } => {
            let m1 = World { orgs: n.orgs, ..o };
            lemma_org_related_conserves(o, m1, org, |a: Org, b: Org| missed_payment(a, b, contract));
        },
        Event::EmploymentTerminated { contract, .. } => {
            if let Some(i) = find(o.contracts@, contract.0) {
                if let crate::ledger::Party::Org(org) = o.contracts@[i].parties.0 {
                    let m1 = World { orgs: n.orgs, ..o };
                    lemma_org_related_conserves(o, m1, org, |a: Org, b: Org| employee_dropped(a, b, contract));
                }
            }
        },
        Event::RentMissed { .. } => {},
        Event::CreditMissed { .. } => {},
        Event::LeaseEnded { .. } => {},
        Event::WantedRemoved { .. } => {},
        Event::DwellingOccupied { dwelling, citizen } => {
            let (m1, m2) = choose|m1: World, m2: World| occupied_via(o, m1, m2, n, dwelling, citizen);
            if let Some(p) = crate::apply::occupant_of(o, dwelling) {
                lemma_citizen_change_conserves(o, m1, p, |x: Citizen| with_home(x, None));
            }
            if let Some(cc) = citizen {
                lemma_citizen_change_conserves(m2, n, cc, |x: Citizen| with_home(x, Some(dwelling)));
            }
        },
        Event::CycleClosed { .. } => {
            lemma_dividends_cleared_conserves(o, n);
        },
        Event::RentPaid { contract, amount } => {
            let mid = choose|mid: World| crate::apply::paid_under_via(o, mid, n, contract, true, 0, amount);
            lemma_paid_under_conserves(o, mid, n, contract, true, 0, amount);
        },
        Event::CreditInstallment { contract, amount, remaining } => {
            let mid = choose|mid: World| crate::apply::paid_under_via(o, mid, n, contract, false, remaining, amount);
            lemma_paid_under_conserves(o, mid, n, contract, false, remaining, amount);
        },
        Event::DwellingBuilt { dwelling, org, materials_consumed, .. } => {
            let mid = choose|mid: World| crate::apply::built_via(o, mid, n, dwelling, org, materials_consumed);
            lemma_built_conserves(o, mid, n, dwelling, org, materials_consumed);
        },
        Event::SharesIssued { org, qty } => {
            lemma_issued_conserves(o, n, org, qty);
        },
        Event::WantedPosted { .. } => {},
        Event::MembershipRequested { .. } => {},
        Event::EmploymentOffered { .. } => {},
        Event::ShareRuleSet { .. } => {},
        Event::LeaseAccepted { .. } => {},
        Event::EmploymentAccepted { contract, org, .. } => {
            let m1 = World { orgs: n.orgs, ..o };
            lemma_org_related_conserves(o, m1, org, |a: Org, b: Org| crate::apply::hired(a, b, contract));
        },
        Event::CreditRepaid { contract } => {
            let mid = choose|mid: World| crate::apply::repaid_via(o, mid, n, contract);
            if let Some(i) = find(o.contracts@, contract.0) {
                lemma_find(o.contracts@, contract.0);
                lemma_update_keeps_ids(o.contracts@, i, crate::apply::ended(o.contracts@[i]));
                lemma_release_conserves(mid, n, contract, o.contracts@[i].parties.1, None);
            }
        },
        Event::CreditDefaulted { contract, collateral_seized } => {
            let (m1, m2) = choose|m1: World, m2: World| crate::apply::defaulted_via(o, m1, m2, n, contract, collateral_seized);
            if let Some(i) = find(o.contracts@, contract.0) {
                lemma_find(o.contracts@, contract.0);
                lemma_update_keeps_ids(o.contracts@, i, crate::apply::ended(o.contracts@[i]));
                let k = o.contracts@[i];
                match collateral_seized {
                    Some(crate::world::Collateral::Shares(org, _)) => {
                        lemma_release_conserves(m1, m2, contract, k.parties.0, Some(org));
                    },
                    _ => {},
                }
                if let crate::ledger::Party::Citizen(c) = k.parties.1 {
                    lemma_citizen_change_conserves(m2, n, c, |x: Citizen| crate::apply::with_default(x));
                }
            }
        },
        Event::LaborSet { citizen, allocations } => {
            let mid = choose|mid: World| crate::apply::labor_set_via(o, mid, n, citizen, allocations@);
            lemma_labor_set_conserves(o, mid, n, citizen, allocations@);
        },
        Event::HardshipBegan { citizen, .. } => {
            lemma_citizen_change_conserves(o, n, citizen, |c: Citizen| with_flags(c, flags_set(c.flags, Some(true), None)));
        },
        Event::HardshipEnded { citizen, .. } => {
            lemma_citizen_change_conserves(o, n, citizen, |c: Citizen| with_flags(c, flags_set(c.flags, Some(false), None)));
        },
        Event::DestitutionBegan { citizen, .. } => {
            lemma_citizen_change_conserves(o, n, citizen, |c: Citizen| with_flags(c, flags_set(c.flags, None, Some(true))));
        },
        Event::DestitutionEnded { citizen, .. } => {
            lemma_citizen_change_conserves(o, n, citizen, |c: Citizen| with_flags(c, flags_set(c.flags, None, Some(false))));
        },
    }
}

/// An org paying a citizen money it has keeps the books balanced.
proof fn lemma_pay_conserves(o: World, n: World, org: crate::ids::OrgId, citizen: crate::ids::CitizenId, amount: crate::money::Money)
    requires
        o.wf(),
        conserved(o),
        sound_pay(o, org, citizen, amount),
        movable(o, Holder::Org(org), Holder::Citizen(citizen), Asset::Money(amount)),
        crate::apply::moved(o, n, Holder::Org(org), Holder::Citizen(citizen), Asset::Money(amount)),
    ensures
        conserved(n),
{
    let a = Asset::Money(amount);
    let mid = choose|mid: World| moved_via(o, mid, n, Holder::Org(org), Holder::Citizen(citizen), a);
    lemma_move_conserves(o, mid, n, Holder::Org(org), Holder::Citizen(citizen), a);
}

/// A fresh society's books balance.
proof fn lemma_created_conserves(n: World, society_id: u64, seed: u64, preset: crate::config::Preset)
    requires
        n.created(society_id, seed, preset),
    ensures
        conserved(n),
{
}

/// Joining a new citizen with a non-negative endowment keeps the books balanced.
proof fn lemma_joined_conserves(
    o: World,
    n: World,
    id: crate::ids::CitizenId,
    handle: Seq<char>,
    kind: crate::kinds::CitizenKind,
    endowment: crate::money::Money,
    dwelling: Option<crate::ids::DwellingId>,
)
    requires
        conserved(o),
        !has_citizen(o, id),
        endowment.0 >= 0,
        crate::apply::fits_i64(o.ledger_meta.minted.0 + endowment.0),
        joined(o, n, id, handle, kind, endowment, dwelling),
    ensures
        conserved(n),
{
    let c = choose|c: Citizen| is_joined_citizen(c, o, id, handle, kind, endowment, dwelling) && upserted(o.citizens@, n.citizens@, c);
    assert(c.key_of() == id.0);
    let j = choose|j: int| 0 <= j <= o.citizens@.len() && n.citizens@ == o.citizens@.insert(j, c);
    lemma_sum_insert(o.citizens@, balance_of(), j, c);
    assert forall|g: Good| #[trigger] citizens_goods(n.citizens@, g) == citizens_goods(o.citizens@, g) by {
        lemma_sum_insert(o.citizens@, pantry_of(g), j, c);
    }
    assert forall|g: Good| #[trigger] goods_held(n, g) == goods_held(o, g) by {
        assert(citizens_goods(n.citizens@, g) == citizens_goods(o.citizens@, g));
    }
    assert(money_held(n) == money_held(o) + endowment.0);
    assert(money_held(n) == n.ledger_meta.spec_expected_money());
    assert forall|g: Good| #[trigger] goods_held(n, g) == n.ledger_meta.spec_expected_goods(g) by {
        assert(goods_held(o, g) == o.ledger_meta.spec_expected_goods(g));
    }
    assert forall|k: int| 0 <= k < n.citizens@.len() implies #[trigger] n.citizens@[k].household.balance.0 >= 0 by {
        if k < j {
            assert(n.citizens@[k] == o.citizens@[k]);
        } else if k > j {
            assert(n.citizens@[k] == o.citizens@[k - 1]);
        }
    }
    lemma_registries_kept(o, n);
}

/// Founding a new org, its founder paying a fee they have (or no founder and
/// no fee), with an opening share registry that adds up, keeps the books balanced.
proof fn lemma_founded_conserves(
    o: World,
    mid: World,
    n: World,
    id: crate::ids::OrgId,
    kind: crate::kinds::OrgKind,
    name: Seq<char>,
    founder: Option<crate::ids::CitizenId>,
    ownership: Ownership,
    manager: Option<crate::ids::CitizenId>,
    fee: crate::money::Money,
)
    requires
        o.wf(),
        conserved(o),
        founder matches Some(f) ==> debitable(o, Holder::Citizen(f), Asset::Money(fee)),
        crate::apply::fits_i64(o.ledger_meta.burned_money.0 + fee.0),
        !has_org(o, id),
        match founder {
            Some(f) => has_citizen(o, f) && covers(o, Holder::Citizen(f), Asset::Money(fee)),
            None => fee.0 == 0,
        },
        match ownership {
            Ownership::Shares { issued, holdings } => registry_total(holdings@) + escrowed_shares(o.share_escrow@, id)
                == issued,
            _ => true,
        },
        founded_via(o, mid, n, id, kind, name, founder, ownership, manager, fee),
    ensures
        conserved(n),
{
    match founder {
        Some(f) => {
            lemma_find(o.citizens@, f.0);
            lemma_debit_books(o, mid, Holder::Citizen(f), Asset::Money(fee));
            lemma_registries_kept(o, mid);
        },
        None => {},
    }
    assert(money_held(mid) == money_held(o) - fee.0);
    assert(mid.orgs == o.orgs && mid.share_escrow == o.share_escrow);
    let r = choose|r: Org| is_founded_org(r, mid, id, kind, name, founder, ownership, manager) && upserted(mid.orgs@, n.orgs@, r);
    assert(r.key_of() == id.0);
    assert(find(mid.orgs@, id.0) is None);
    let j = choose|j: int| 0 <= j <= mid.orgs@.len() && n.orgs@ == mid.orgs@.insert(j, r);
    lemma_sum_insert(mid.orgs@, treasury_of(), j, r);
    assert forall|g: Good| #[trigger] orgs_goods(n.orgs@, g) == orgs_goods(mid.orgs@, g) by {
        lemma_sum_insert(mid.orgs@, inventory_of(g), j, r);
    }
    assert forall|g: Good| #[trigger] goods_held(n, g) == goods_held(mid, g) by {
        assert(orgs_goods(n.orgs@, g) == orgs_goods(mid.orgs@, g));
    }
    assert forall|k: int| 0 <= k < n.orgs@.len() implies #[trigger] n.orgs@[k].treasury.0 >= 0 by {
        if k < j {
            assert(n.orgs@[k] == mid.orgs@[k]);
        } else if k > j {
            assert(n.orgs@[k] == mid.orgs@[k - 1]);
        }
    }
    assert forall|k: int| 0 <= k < n.orgs@.len() implies shares_balanced(n, #[trigger] n.orgs@[k]) by {
        if k < j {
            assert(n.orgs@[k] == mid.orgs@[k]);
            assert(shares_balanced(mid, mid.orgs@[k]));
        } else if k > j {
            assert(n.orgs@[k] == mid.orgs@[k - 1]);
            assert(shares_balanced(mid, mid.orgs@[k - 1]));
        } else {
            assert(n.orgs@[k] == r);
        }
    }
    assert(money_held(n) == n.ledger_meta.spec_expected_money());
    assert forall|g: Good| #[trigger] goods_held(n, g) == n.ledger_meta.spec_expected_goods(g) by {
        assert(goods_held(mid, g) == goods_held(o, g));
        assert(goods_held(o, g) == o.ledger_meta.spec_expected_goods(g));
    }
}

/// Adding a new workplace to an org that has the materials keeps the books balanced.
proof fn lemma_workplace_added_conserves(
    o: World,
    mid: World,
    n: World,
    id: crate::ids::WorkplaceId,
    org: crate::ids::OrgId,
    kind: crate::kinds::WorkplaceKind,
    slot: Option<crate::ids::SlotId>,
    materials: u32,
)
    requires
        o.wf(),
        conserved(o),
        o.ledger_meta.consumed.spec_get(Good::Materials) + materials <= u64::MAX,
        find(o.workplaces@, id.0) is None,
        goods_in(o, Holder::Org(org), Good::Materials) matches Some(v) && v >= materials,
        workplace_added_via(o, mid, n, id, org, kind, slot, materials),
    ensures
        conserved(n),
{
    let a = Asset::Good(Good::Materials, materials);
    lemma_debit_books(o, mid, Holder::Org(org), a);
    lemma_registries_kept(o, mid);
    assert(mid.workplaces == o.workplaces);
    // The new workplace has no machines.
    let x = choose|x: Workplace| is_added_workplace(x, id, org, kind, slot) && upserted(mid.workplaces@, n.workplaces@, x);
    assert(x.key_of() == id.0);
    let j = choose|j: int| 0 <= j <= mid.workplaces@.len() && n.workplaces@ == mid.workplaces@.insert(j, x);
    lemma_sum_insert(mid.workplaces@, machines_of(), j, x);
    // Listing it with its org changes nothing the books count.
    let m1 = World { orgs: n.orgs, ..mid };
    if let Some(i) = find(mid.orgs@, org.0) {
        lemma_find(mid.orgs@, org.0);
        assert(n.orgs@ =~= mid.orgs@.update(i, n.orgs@[i]));
        lemma_org_row(mid, m1, i, n.orgs@[i]);
        lemma_registries_kept(mid, m1);
    }
    assert(registries_kept(m1, n));
    lemma_registries_kept(m1, n);
    assert(money_held(n) == n.ledger_meta.spec_expected_money());
    assert(goods_held(n, Good::Machines) == goods_held(m1, Good::Machines));
    assert forall|g: Good| #[trigger] goods_held(n, g) == n.ledger_meta.spec_expected_goods(g) by {
        assert(goods_held(o, g) == o.ledger_meta.spec_expected_goods(g));
        assert(goods_held(m1, g) == goods_held(mid, g));
        assert(goods_held(n, g) == goods_held(m1, g));
        o.ledger_meta.consumed.lemma_get_set(Good::Materials, (o.ledger_meta.consumed.spec_get(Good::Materials) + materials) as u64, g);
    }
}

/// Production at a workplace whose org has its inputs keeps the books balanced.
proof fn lemma_produced_conserves(
    o: World,
    n: World,
    wp: crate::ids::WorkplaceId,
    output: Good,
    units: u32,
    inputs: crate::kinds::GoodCounts,
)
    requires
        o.wf(),
        conserved(o),
        crate::apply::production_fits(o, wp, output, units, inputs),
        org_of_workplace(o, wp) matches Some(org) ==> {
            &&& has_org(o, org)
            &&& forall|g: Good| #[trigger] inputs.spec_get(g) <= goods_in(o, Holder::Org(org), g)->0
        },
        production(o, n, wp, output, units, inputs),
    ensures
        conserved(n),
{
    if let Some(org) = org_of_workplace(o, wp) {
        lemma_find(o.orgs@, org.0);
        let i = find(o.orgs@, org.0)->0;
        let r = o.orgs@[i];
        assert(r.id == org);
        let x = Org { inventory: produced_inventory(r.inventory, inputs, output, units), ..r };
        let m1 = World { orgs: n.orgs, ..o };
        lemma_org_row(o, m1, i, x);
        lemma_registries_kept(o, m1);
        assert forall|g: Good| #[trigger] goods_held(n, g) == n.ledger_meta.spec_expected_goods(g) by {
            assert(inputs.spec_get(g) <= r.inventory.spec_get(g));
            assert(goods_held(m1, g) == goods_held(o, g) - r.inventory.spec_get(g) + x.inventory.spec_get(g));
            match g {
                Good::Grain => {},
                Good::Ore => {},
                Good::Materials => {},
                Good::Food => {},
                Good::Wares => {},
                Good::Machines => {},
            }
            assert(goods_held(o, g) == o.ledger_meta.spec_expected_goods(g));
        }
    }
}

/// A change to one org, related to its old row by `rel`, that keeps its id,
/// ownership, money and inventory keeps the books balanced.
proof fn lemma_org_related_conserves(o: World, n: World, id: crate::ids::OrgId, rel: spec_fn(Org, Org) -> bool)
    requires
        conserved(o),
        n == (World { orgs: n.orgs, ..o }),
        row_related(o.orgs@, n.orgs@, id.0, rel),
        forall|a: Org, b: Org|
            #[trigger] rel(a, b) ==> b.id == a.id && b.ownership == a.ownership && b.treasury == a.treasury
                && b.inventory == a.inventory,
    ensures
        conserved(n),
{
    if let Some(i) = find(o.orgs@, id.0) {
        lemma_find(o.orgs@, id.0);
        assert(rel(o.orgs@[i], n.orgs@[i]));
        assert(n.orgs@ =~= o.orgs@.update(i, n.orgs@[i]));
        lemma_org_row(o, n, i, n.orgs@[i]);
        lemma_registries_kept(o, n);
    }
}

/// Clearing every declared dividend keeps the books balanced.
proof fn lemma_dividends_cleared_conserves(o: World, n: World)
    requires
        conserved(o),
        n == (World { meta: n.meta, orgs: n.orgs, ..o }),
        n.orgs@.len() == o.orgs@.len(),
        forall|i: int| 0 <= i < o.orgs@.len() ==> #[trigger] n.orgs@[i] == no_dividend(o.orgs@[i]),
    ensures
        conserved(n),
{
    lemma_sum_pointwise(o.orgs@, n.orgs@, treasury_of());
    assert forall|g: Good| #[trigger] goods_held(n, g) == goods_held(o, g) by {
        lemma_sum_pointwise(o.orgs@, n.orgs@, inventory_of(g));
    }
    assert(registries_kept(o, n));
    lemma_registries_kept(o, n);
    assert forall|i: int| 0 <= i < n.orgs@.len() implies #[trigger] n.orgs@[i].treasury.0 >= 0 by {
        assert(n.orgs@[i] == no_dividend(o.orgs@[i]));
    }
}

/// A payment under a contract whose payer has the amount keeps the books balanced.
proof fn lemma_paid_under_conserves(
    o: World,
    mid: World,
    n: World,
    id: crate::ids::ContractId,
    rent: bool,
    remaining: u32,
    amount: crate::money::Money,
)
    requires
        o.wf(),
        conserved(o),
        crate::apply::payable_under(o, id, amount),
        sound_under(o, id, amount),
        crate::apply::paid_under_via(o, mid, n, id, rent, remaining, amount),
    ensures
        conserved(n),
{
    if let Some(i) = find(o.contracts@, id.0) {
        lemma_find(o.contracts@, id.0);
        lemma_update_keeps_ids(o.contracts@, i, crate::apply::settled(o.contracts@[i], rent, remaining));
        let from = holder(o.contracts@[i].parties.1);
        let to = holder(o.contracts@[i].parties.0);
        let a = Asset::Money(amount);
        assert(mid.citizens == o.citizens && mid.orgs == o.orgs && mid.workplaces == o.workplaces);
        assert(mid.wf());
        assert(conserved(mid)) by {
            assert(money_held(mid) == money_held(o));
            assert forall|g: Good| #[trigger] goods_held(mid, g) == goods_held(o, g) by {}
            assert forall|k: int| 0 <= k < mid.orgs@.len() implies shares_balanced(mid, #[trigger] mid.orgs@[k]) by {
                assert(shares_balanced(o, o.orgs@[k]));
            }
        }
        assert(money_in(mid, from) == money_in(o, from));
        assert(money_in(mid, to) == money_in(o, to));
        let m2 = choose|m2: World| moved_via(mid, m2, n, from, to, a);
        lemma_move_conserves(mid, m2, n, from, to, a);
    }
}

/// Building a dwelling from materials its org has keeps the books balanced.
proof fn lemma_built_conserves(
    o: World,
    mid: World,
    n: World,
    id: crate::ids::DwellingId,
    org: crate::ids::OrgId,
    materials: u32,
)
    requires
        o.wf(),
        conserved(o),
        o.ledger_meta.consumed.spec_get(Good::Materials) + materials <= u64::MAX,
        goods_in(o, Holder::Org(org), Good::Materials) matches Some(v) && v >= materials,
        crate::apply::built_via(o, mid, n, id, org, materials),
    ensures
        conserved(n),
{
    let a = Asset::Good(Good::Materials, materials);
    lemma_debit_books(o, mid, Holder::Org(org), a);
    lemma_registries_kept(o, mid);
    assert(money_held(n) == money_held(mid));
    assert forall|g: Good| #[trigger] goods_held(n, g) == n.ledger_meta.spec_expected_goods(g) by {
        assert(goods_held(o, g) == o.ledger_meta.spec_expected_goods(g));
        assert(goods_held(n, g) == goods_held(mid, g));
        assert(goods_held(mid, g) == goods_held(o, g) - goods_moved(o, Holder::Org(org), a, g));
        o.ledger_meta.consumed.lemma_get_set(
            Good::Materials,
            (o.ledger_meta.consumed.spec_get(Good::Materials) + materials) as u64,
            g,
        );
    }
    assert forall|k: int| 0 <= k < n.orgs@.len() implies shares_balanced(n, #[trigger] n.orgs@[k]) by {
        assert(shares_balanced(mid, mid.orgs@[k]));
    }
}

/// Crediting `q` shares to an org's own line adds `q` to its registry.
proof fn lemma_self_credited_total(h: Seq<crate::world::ShareHolding>, q: u64)
    requires
        forall|k: int| 0 <= k < h.len() ==> (#[trigger] h[k]).qty + q <= u64::MAX,
    ensures
        registry_total(crate::apply::self_credited(h, q)) == registry_total(h) + q,
{
    lemma_credited_line_total(h, crate::world::ShareHolder::OrgSelf, q);
}

/// Crediting `q` shares to a holder's line adds `q` to the registry.
proof fn lemma_credited_line_total(h: Seq<crate::world::ShareHolding>, holder: crate::world::ShareHolder, q: u64)
    requires
        forall|k: int| 0 <= k < h.len() ==> (#[trigger] h[k]).qty + q <= u64::MAX,
    ensures
        registry_total(crate::apply::credited_line(h, holder, q)) == registry_total(h) + q,
{
    let p = crate::shares::line_of(holder);
    crate::table::lemma_first(h, p);
    match crate::table::first(h, p) {
        Some(k) => {
            let x = crate::world::ShareHolding { holder, qty: (h[k].qty + q) as u64 };
            lemma_sum_update(h, crate::ledger::holding_qty(), k, x);
        },
        None => {
            let x = crate::world::ShareHolding { holder, qty: q };
            crate::sum::lemma_sum_push(h, crate::ledger::holding_qty(), x);
        },
    }
}

/// Issuing shares to an org itself keeps the books balanced: its registry
/// grows by what it issues.
proof fn lemma_issued_conserves(o: World, n: World, org: crate::ids::OrgId, q: u64)
    requires
        o.wf(),
        conserved(o),
        crate::apply::issuable(o, org, q),
        n == (World { orgs: n.orgs, ..o }),
        row_related(o.orgs@, n.orgs@, org.0, |a: Org, b: Org| crate::apply::issued(a, b, q)),
    ensures
        conserved(n),
{
    if let Some(i) = find(o.orgs@, org.0) {
        lemma_find(o.orgs@, org.0);
        let a = o.orgs@[i];
        let b = n.orgs@[i];
        assert(crate::apply::issued(a, b, q));
        assert(n.orgs@ =~= o.orgs@.update(i, b));
        lemma_sum_update(o.orgs@, treasury_of(), i, b);
        assert forall|g: Good| #[trigger] goods_held(n, g) == goods_held(o, g) by {
            lemma_sum_update(o.orgs@, inventory_of(g), i, b);
        }
        assert forall|k: int| 0 <= k < n.orgs@.len() implies shares_balanced(n, #[trigger] n.orgs@[k]) by {
            assert(shares_balanced(o, o.orgs@[k]));
            if k == i {
                if let Ownership::Shares { issued, holdings } = a.ownership {
                    lemma_self_credited_total(holdings@, q);
                }
            }
        }
        assert forall|k: int| 0 <= k < n.orgs@.len() implies #[trigger] n.orgs@[k].treasury.0 >= 0 by {
            assert(o.orgs@[k].treasury.0 >= 0);
        }
    }
}

/// Releasing escrowed shares into the registry they came from, on a line the
/// receiving party can hold, keeps the books balanced.
proof fn lemma_release_conserves(
    o: World,
    n: World,
    id: crate::ids::ContractId,
    party: crate::ledger::Party,
    org: Option<crate::ids::OrgId>,
)
    requires
        o.wf(),
        conserved(o),
        crate::apply::releasable(o, id, org),
        release_sound(o, id, party, org),
        crate::apply::escrow_released(o, n, id, party, org),
    ensures
        conserved(n),
{
    crate::table::lemma_first(o.share_escrow@, crate::apply::held_for(id));
    if let Some(e) = crate::table::first(o.share_escrow@, crate::apply::held_for(id)) {
        let entry = o.share_escrow@[e];
        let target = entry.org;
        assert forall|g: crate::ids::OrgId| #[trigger] escrowed_shares(n.share_escrow@, g) == escrowed_shares(
            o.share_escrow@,
            g,
        ) - if g == target {
            entry.qty as int
        } else {
            0
        } by {
            crate::sum::lemma_sum_remove(o.share_escrow@, crate::ledger::escrowed_shares_of(g), e);
        }
        match crate::shares::spec_holder_of(party, target) {
            Some(h) => {
                lemma_find(o.orgs@, target.0);
                if let Some(i) = find(o.orgs@, target.0) {
                    let a = o.orgs@[i];
                    let b = n.orgs@[i];
                    assert(crate::apply::took_shares(a, b, h, entry.qty));
                    assert(n.orgs@ =~= o.orgs@.update(i, b));
                    lemma_sum_update(o.orgs@, treasury_of(), i, b);
                    assert forall|g: Good| #[trigger] goods_held(n, g) == goods_held(o, g) by {
                        lemma_sum_update(o.orgs@, inventory_of(g), i, b);
                    }
                    assert forall|k: int| 0 <= k < n.orgs@.len() implies shares_balanced(n, #[trigger] n.orgs@[k]) by {
                        assert(shares_balanced(o, o.orgs@[k]));
                        if k == i {
                            if let Ownership::Shares { issued, holdings } = a.ownership {
                                assert forall|j: int| 0 <= j < holdings@.len() implies (#[trigger] holdings@[j]).qty + entry.qty <= u64::MAX by {
                                    assert(o.orgs@[i].id == target);
                                }
                                lemma_credited_line_total(holdings@, h, entry.qty);
                            }
                        } else {
                            crate::table::lemma_find_unique(o.orgs@, k);
                            assert(o.orgs@[k].id != target);
                        }
                    }
                    assert forall|k: int| 0 <= k < n.orgs@.len() implies #[trigger] n.orgs@[k].treasury.0 >= 0 by {
                        assert(o.orgs@[k].treasury.0 >= 0);
                    }
                } else {
                    assert forall|k: int| 0 <= k < n.orgs@.len() implies shares_balanced(n, #[trigger] n.orgs@[k]) by {
                        assert(shares_balanced(o, o.orgs@[k]));
                    }
                }
            },
            None => {
                lemma_find(o.orgs@, target.0);
                assert forall|k: int| 0 <= k < n.orgs@.len() implies shares_balanced(n, #[trigger] n.orgs@[k]) by {
                    assert(shares_balanced(o, o.orgs@[k]));
                    if n.orgs@[k].id == target {
                        crate::table::lemma_find_unique(o.orgs@, k);
                    }
                }
            },
        }
    }
}

/// Setting a citizen's labor moves no money or goods.
proof fn lemma_labor_set_conserves(
    o: World,
    mid: World,
    n: World,
    c: crate::ids::CitizenId,
    al: Seq<crate::world::Allocation>,
)
    requires
        conserved(o),
        crate::apply::labor_set_via(o, mid, n, c, al),
    ensures
        conserved(n),
{
    if let Some(i) = find(o.citizens@, c.0) {
        lemma_find(o.citizens@, c.0);
        assert(crate::apply::allocated(o.citizens@[i], mid.citizens@[i], al));
        assert(mid.citizens@ =~= o.citizens@.update(i, mid.citizens@[i]));
        lemma_citizen_row(o, mid, i, mid.citizens@[i]);
        lemma_registries_kept(o, mid);
    }
    assert(conserved(mid));
    assert forall|k: int| 0 <= k < mid.workplaces@.len() implies (#[trigger] machines_of()(mid.workplaces@[k]))
        == machines_of()(n.workplaces@[k]) by {
        assert(crate::apply::rehoured(mid.workplaces@[k], n.workplaces@[k], c, al));
    }
    lemma_sum_pointwise(mid.workplaces@, n.workplaces@, machines_of());
    assert(registries_kept(mid, n));
    lemma_registries_kept(mid, n);
    assert forall|g: Good| #[trigger] goods_held(n, g) == goods_held(mid, g) by {}
}

} // verus!
