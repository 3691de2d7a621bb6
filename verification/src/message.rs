//! Refusal messages: text with the ids, names, counts and amounts it is
//! about, written as the engine prints them (`c3`, `o1`, `w2`, `12.50`).
use crate::ids::{CitizenId, ContractId, DwellingId, OfferId, OrgId, SlotId, WorkplaceId};
use crate::kinds::WorkplaceKind;
use crate::ledger::Party;
use crate::money::{digits, push_digits, spec_credits_text, Money};
use vstd::prelude::*;

verus! {

/// A message that begins with `s`.
pub fn say(s: &str) -> (m: String)
    ensures
        m@ == s@,
{
    let mut m = String::new();
    m.append(s);
    m
}

/// Add text to a message.
pub fn put(m: &mut String, s: &str)
    ensures
        final(m)@ == old(m)@ + s@,
{
    m.append(s);
}

/// Add a number to a message.
pub fn put_num(m: &mut String, n: u64)
    ensures
        final(m)@ == old(m)@ + digits(n as nat),
{
    push_digits(m, n);
}

/// Add an id, its letter then its number.
fn put_id(m: &mut String, letter: &str, n: u32)
    ensures
        final(m)@ == old(m)@ + letter@ + digits(n as nat),
{
    m.append(letter);
    push_digits(m, n as u64);
}

/// Add a citizen's id: `c` then its number.
pub fn put_citizen(m: &mut String, id: CitizenId)
    ensures
        final(m)@ == old(m)@ + "c"@ + digits(id.0 as nat),
{
    put_id(m, "c", id.0);
}

/// Add an org's id: `o` then its number.
pub fn put_org(m: &mut String, id: OrgId)
    ensures
        final(m)@ == old(m)@ + "o"@ + digits(id.0 as nat),
{
    put_id(m, "o", id.0);
}

/// Add a workplace's id: `w` then its number.
pub fn put_workplace(m: &mut String, id: WorkplaceId)
    ensures
        final(m)@ == old(m)@ + "w"@ + digits(id.0 as nat),
{
    put_id(m, "w", id.0);
}

/// Add a dwelling's id: `d` then its number.
pub fn put_dwelling(m: &mut String, id: DwellingId)
    ensures
        final(m)@ == old(m)@ + "d"@ + digits(id.0 as nat),
{
    put_id(m, "d", id.0);
}

/// Add a slot's id: `s` then its number.
pub fn put_slot(m: &mut String, id: SlotId)
    ensures
        final(m)@ == old(m)@ + "s"@ + digits(id.0 as nat),
{
    put_id(m, "s", id.0);
}

/// Add a contract's id: `k` then its number.
pub fn put_contract(m: &mut String, id: ContractId)
    ensures
        final(m)@ == old(m)@ + "k"@ + digits(id.0 as nat),
{
    put_id(m, "k", id.0);
}

/// Add an offer's id: `f` then its number.
pub fn put_offer(m: &mut String, id: OfferId)
    ensures
        final(m)@ == old(m)@ + "f"@ + digits(id.0 as nat),
{
    put_id(m, "f", id.0);
}

/// A party as the engine prints it: `Citizen(c3)` or `Org(o1)`.
pub open spec fn party_text(p: Party) -> Seq<char> {
    match p {
        Party::Citizen(c) => "Citizen("@ + "c"@ + digits(c.0 as nat) + ")"@,
        Party::Org(o) => "Org("@ + "o"@ + digits(o.0 as nat) + ")"@,
    }
}

/// Add a party as the engine prints it.
pub fn put_party(m: &mut String, p: Party)
    ensures
        final(m)@ == old(m)@ + party_text(p),
{
    let ghost m0 = m@;
    match p {
        Party::Citizen(c) => {
            m.append("Citizen(");
            put_citizen(m, c);
        },
        Party::Org(o) => {
            m.append("Org(");
            put_org(m, o);
        },
    }
    m.append(")");
    proof {
        match p {
            Party::Citizen(c) => {
                assert(m@ =~= m0 + ("Citizen("@ + "c"@ + digits(c.0 as nat) + ")"@));
            },
            Party::Org(o) => {
                assert(m@ =~= m0 + ("Org("@ + "o"@ + digits(o.0 as nat) + ")"@));
            },
        }
    }
}

/// Add an amount as credits with two decimals.
pub fn put_money(m: &mut String, v: Money)
    ensures
        final(m)@ == old(m)@ + spec_credits_text(v.0 as int),
{
    let t = v.to_string();
    m.append(t.as_str());
}

/// Add a name.
pub fn put_name(m: &mut String, name: &String)
    ensures
        final(m)@ == old(m)@ + name@,
{
    m.append(name.as_str());
}

/// A workplace kind's name.
pub open spec fn kind_name(k: WorkplaceKind) -> Seq<char> {
    match k {
        WorkplaceKind::Farm => "Farm"@,
        WorkplaceKind::Mine => "Mine"@,
        WorkplaceKind::Foundry => "Foundry"@,
        WorkplaceKind::Mill => "Mill"@,
        WorkplaceKind::Workshop => "Workshop"@,
        WorkplaceKind::MachineShop => "MachineShop"@,
        WorkplaceKind::Builder => "Builder"@,
    }
}

/// Add a workplace kind by its name.
pub fn put_kind(m: &mut String, k: WorkplaceKind)
    ensures
        final(m)@ == old(m)@ + kind_name(k),
{
    let s = match k {
        WorkplaceKind::Farm => "Farm",
        WorkplaceKind::Mine => "Mine",
        WorkplaceKind::Foundry => "Foundry",
        WorkplaceKind::Mill => "Mill",
        WorkplaceKind::Workshop => "Workshop",
        WorkplaceKind::MachineShop => "MachineShop",
        WorkplaceKind::Builder => "Builder",
    };
    m.append(s);
}

} // verus!
