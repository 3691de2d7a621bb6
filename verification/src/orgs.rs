//! Orgs and their workplaces: where a workplace may stand, whether it has
//! room, and who controls a firm.
use crate::command::{acting_citizen, spec_acting_citizen, Envelope, Reject, RejectCode};
use crate::event::{Actor, Event};
use crate::ids::{CitizenId, OrgId, SlotId, WorkplaceId};
use crate::kinds::{Good, OrgKind, WorkplaceKind};
use crate::ledger::{Asset, Party};
use crate::money::Money;
use crate::table::contains_key;
use vstd::string::*;
use crate::table::{find, first, index_of, lemma_find, lemma_first};
use crate::world::{Citizen, Org, Ownership, ShareHolder, ShareHolding, Slot, Workplace, World};
use crate::message::{put, put_citizen, put_contract, put_dwelling, put_kind, put_money, put_name, put_num, put_org, put_party, put_slot, put_workplace, say};
use vstd::prelude::*;

verus! {

/// Whether a slot is a free one of `kind`.
pub open spec fn free_of(kind: WorkplaceKind) -> spec_fn(Slot) -> bool {
    |s: Slot| s.kind == kind && s.workplace is None
}

/// The first free slot of `kind`.
pub fn free_slot(slots: &Vec<Slot>, kind: WorkplaceKind) -> (r: Option<SlotId>)
    ensures
        r == match first(slots@, free_of(kind)) {
            Some(k) => Some(slots@[k].id),
            None => None,
        },
{
    let mut k: usize = 0;
    while k < slots.len()
        invariant
            k <= slots@.len(),
            forall|j: int| 0 <= j < k ==> !(free_of(kind))(#[trigger] slots@[j]),
        decreases slots@.len() - k,
    {
        let s = slots[k];
        if s.kind == kind && s.workplace.is_none() {
            proof {
                assert((free_of(kind))(slots@[k as int]));
                lemma_first(slots@, free_of(kind));
                let j = first(slots@, free_of(kind))->0;
                if j < k {
                    assert(!(free_of(kind))(slots@[j]));
                }
            }
            return Some(s.id);
        }
        k = k + 1;
    }
    proof {
        lemma_first(slots@, free_of(kind));
    }
    None
}

/// Where a new workplace of `kind` stands: nowhere in particular where the
/// kind is not slot-limited; else the wanted slot if it is a free one of the
/// kind, or the first free slot of the kind; else no slot is available.
pub open spec fn spec_slot_for(w: World, kind: WorkplaceKind, wanted: Option<SlotId>) -> Result<Option<SlotId>, RejectCode> {
    if !w.land.limited.spec_get(kind) {
        Ok(None)
    } else {
        match wanted {
            Some(s) => match find(w.land.slots@, s.0) {
                Some(i) => if (free_of(kind))(w.land.slots@[i]) {
                    Ok(Some(s))
                } else {
                    Err(RejectCode::NoSlotAvailable)
                },
                None => Err(RejectCode::NoSlotAvailable),
            },
            None => match first(w.land.slots@, free_of(kind)) {
                Some(k) => Ok(Some(w.land.slots@[k].id)),
                None => Err(RejectCode::NoSlotAvailable),
            },
        }
    }
}

/// The slot a new workplace of `kind` takes.
pub fn slot_for(world: &World, kind: WorkplaceKind, wanted: Option<SlotId>) -> (r: Result<Option<SlotId>, Reject>)
    ensures
        match (r, spec_slot_for(*world, kind, wanted)) {
            (Ok(a), Ok(b)) => a == b,
            (Err(e), Err(c)) => e.code == c,
            _ => false,
        },
{
    if !world.land.limited.get(kind) {
        return Ok(None);
    }
    match wanted {
        Some(s) => match index_of(&world.land.slots, s.0) {
            Some(i) => {
                let slot = world.land.slots[i];
                if slot.kind == kind && slot.workplace.is_none() {
                    Ok(Some(s))
                } else {
                    Err(Reject::new(RejectCode::NoSlotAvailable, { let mut m = say("slot "); put_slot(&mut m, s); put(&mut m, " is not a free "); put_kind(&mut m, kind); put(&mut m, " slot"); m }))
                }
            },
            None => Err(Reject::new(RejectCode::NoSlotAvailable, { let mut m = say("no slot "); put_slot(&mut m, s); m })),
        },
        None => match free_slot(&world.land.slots, kind) {
            Some(id) => Ok(Some(id)),
            None => Err(Reject::new(RejectCode::NoSlotAvailable, { let mut m = say("no free "); put_kind(&mut m, kind); put(&mut m, " slot"); m })),
        },
    }
}

/// Whether a workplace exists and has fewer workers than the most a workplace takes.
pub open spec fn spec_check_room(w: World, wp: WorkplaceId) -> Result<int, RejectCode> {
    match find(w.workplaces@, wp.0) {
        Some(i) => if w.workplaces@[i].workers@.len() >= w.params.labor.max_workers_per_workplace {
            Err(RejectCode::WorkplaceFull)
        } else {
            Ok(i)
        },
        None => Err(RejectCode::UnknownWorkplace),
    }
}

/// The workplace, if it exists and has room for another worker.
pub fn check_room<'a>(world: &'a World, workplace: WorkplaceId) -> (r: Result<&'a crate::world::Workplace, Reject>)
    ensures
        match (r, spec_check_room(*world, workplace)) {
            (Ok(x), Ok(i)) => *x == world.workplaces@[i],
            (Err(e), Err(c)) => e.code == c,
            _ => false,
        },
{
    let i = match index_of(&world.workplaces, workplace.0) {
        Some(i) => i,
        None => {
            return Err(Reject::new(RejectCode::UnknownWorkplace, { let mut m = say("no workplace "); put_workplace(&mut m, workplace); m }));
        },
    };
    let wp = &world.workplaces[i];
    let max = world.params.labor.max_workers_per_workplace;
    if wp.workers.len() >= max as usize {
        return Err(Reject::new(RejectCode::WorkplaceFull, { let mut m = String::new(); put_workplace(&mut m, workplace); put(&mut m, " already has "); put_num(&mut m, max as u64); put(&mut m, " workers"); m }));
    }
    Ok(wp)
}

/// Whether a registry line is a citizen's holding of more than half the issued shares.
pub open spec fn controls(issued: u64) -> spec_fn(ShareHolding) -> bool {
    |x: ShareHolding| x.holder is Citizen && x.qty * 2 > issued
}

/// The citizen who holds more than half of a firm's issued shares, if any.
pub open spec fn spec_controlling_owner(org: Org) -> Option<CitizenId> {
    match org.ownership {
        Ownership::Shares { issued, holdings } => match first(holdings@, controls(issued)) {
            Some(k) => match holdings@[k].holder {
                ShareHolder::Citizen(c) => Some(c),
                ShareHolder::OrgSelf => None,
            },
            None => None,
        },
        _ => None,
    }
}

/// The first registry line that controls.
fn controlling_line(holdings: &Vec<ShareHolding>, issued: u64) -> (r: Option<CitizenId>)
    ensures
        r == match first(holdings@, controls(issued)) {
            Some(k) => match holdings@[k].holder {
                ShareHolder::Citizen(c) => Some(c),
                ShareHolder::OrgSelf => None,
            },
            None => None,
        },
        match r {
            Some(c) => exists|k: int|
                0 <= k < holdings@.len() && (#[trigger] holdings@[k]).holder == ShareHolder::Citizen(c)
                    && holdings@[k].qty * 2 > issued,
            None => forall|k: int|
                0 <= k < holdings@.len() && (#[trigger] holdings@[k]).holder is Citizen ==> holdings@[k].qty * 2
                    <= issued,
        },
{
    let mut k: usize = 0;
    while k < holdings.len()
        invariant
            k <= holdings@.len(),
            forall|j: int| 0 <= j < k ==> !(controls(issued))(#[trigger] holdings@[j]),
        decreases holdings@.len() - k,
    {
        let x = holdings[k];
        if let ShareHolder::Citizen(c) = x.holder {
            if x.qty as u128 * 2 > issued as u128 {
                proof {
                    assert((controls(issued))(holdings@[k as int]));
                    lemma_first(holdings@, controls(issued));
                    let j = first(holdings@, controls(issued))->0;
                    if j < k {
                        assert(!(controls(issued))(holdings@[j]));
                    }
                }
                return Some(c);
            }
        }
        k = k + 1;
    }
    proof {
        lemma_first(holdings@, controls(issued));
    }
    None
}

/// What the controlling owner is, on the registry itself: a citizen on a
/// line of more than half the issued shares, or nobody where no citizen's
/// line is more than half (and nobody for an org without shares).
pub open spec fn owns_control(org: Org, r: Option<CitizenId>) -> bool {
    match org.ownership {
        Ownership::Shares { issued, holdings } => match r {
            Some(c) => exists|k: int|
                0 <= k < holdings@.len() && (#[trigger] holdings@[k]).holder == ShareHolder::Citizen(c)
                    && holdings@[k].qty * 2 > issued,
            None => forall|k: int|
                0 <= k < holdings@.len() && (#[trigger] holdings@[k]).holder is Citizen ==> holdings@[k].qty * 2
                    <= issued,
        },
        _ => r is None,
    }
}

/// The controlling owner of a firm holds a line of more than half its issued
/// shares, and a firm where some citizen's line is more than half has one.
pub proof fn lemma_control_is_majority(org: Org)
    ensures
        owns_control(org, spec_controlling_owner(org)),
{
    match org.ownership {
        Ownership::Shares { issued, holdings } => {
            lemma_first(holdings@, controls(issued));
            match first(holdings@, controls(issued)) {
                Some(k) => {
                    assert((controls(issued))(holdings@[k]));
                },
                None => {
                    assert forall|k: int|
                        0 <= k < holdings@.len() && (#[trigger] holdings@[k]).holder is Citizen implies holdings@[k].qty
                            * 2 <= issued by {
                        assert(!(controls(issued))(holdings@[k]));
                    }
                },
            }
        },
        _ => {},
    }
}

/// The controlling owner of a firm: the citizen with more than half its shares.
pub fn controlling_owner(org: &Org) -> (r: Option<CitizenId>)
    ensures
        r == spec_controlling_owner(*org),
        owns_control(*org, r),
{
    proof {
        lemma_control_is_majority(*org);
    }
    match &org.ownership {
        Ownership::Shares { issued, holdings } => controlling_line(holdings, *issued),
        _ => None,
    }
}

/// The org an envelope may manage, by position: the actor must be its
/// manager, and an `on_behalf_of` must name the same org.
pub open spec fn spec_managed_org(w: World, actor: Actor, on_behalf_of: Option<OrgId>, org: OrgId) -> Result<int, RejectCode> {
    match spec_acting_citizen(w, actor) {
        Err(c) => Err(c),
        Ok(ci) => match find(w.orgs@, org.0) {
            None => Err(RejectCode::UnknownOrg),
            Some(oi) => if on_behalf_of is Some && on_behalf_of != Some(org) {
                Err(RejectCode::NotAuthorized)
            } else if w.orgs@[oi].manager != Some(w.citizens@[ci].id) {
                Err(RejectCode::NotManager)
            } else {
                Ok(oi)
            },
        },
    }
}

/// The org an envelope may manage: the actor must be its manager, and if
/// `on_behalf_of` is set it must name the same org.
pub fn managed_org<'w, C>(world: &'w World, envelope: &Envelope<C>, org: OrgId) -> (r: Result<&'w Org, Reject>)
    ensures
        match (r, spec_managed_org(*world, envelope.actor, envelope.on_behalf_of, org)) {
            (Ok(o), Ok(i)) => *o == world.orgs@[i],
            (Err(e), Err(code)) => e.code == code,
            _ => false,
        },
{
    let citizen = acting_citizen(world, envelope)?;
    let i = match index_of(&world.orgs, org.0) {
        Some(i) => i,
        None => {
            return Err(Reject::new(RejectCode::UnknownOrg, { let mut m = say("no org "); put_org(&mut m, org); m }));
        },
    };
    let o = &world.orgs[i];
    match envelope.on_behalf_of {
        Some(claimed) => {
            if claimed != org {
                return Err(Reject::new(RejectCode::NotAuthorized, "on_behalf_of names another org".to_string()));
            }
        },
        None => {},
    }
    if o.manager != Some(citizen.id) {
        return Err(Reject::new(RejectCode::NotManager, { let mut m = String::new(); put_citizen(&mut m, citizen.id); put(&mut m, " does not manage "); put_name(&mut m, &o.name); m }));
    }
    Ok(o)
}

/// The workplace `workplace`, by position, where it is `org`'s.
pub open spec fn spec_workplace_of_org(w: World, org: Org, workplace: WorkplaceId) -> Result<int, RejectCode> {
    match find(w.workplaces@, workplace.0) {
        None => Err(RejectCode::UnknownWorkplace),
        Some(i) => if w.workplaces@[i].org != org.id {
            Err(RejectCode::NotAuthorized)
        } else {
            Ok(i)
        },
    }
}

/// The workplace, where it belongs to the org.
pub fn workplace_of_org<'w>(world: &'w World, org: &Org, workplace: WorkplaceId) -> (r: Result<&'w Workplace, Reject>)
    ensures
        match (r, spec_workplace_of_org(*world, *org, workplace)) {
            (Ok(x), Ok(i)) => *x == world.workplaces@[i],
            (Err(e), Err(code)) => e.code == code,
            _ => false,
        },
{
    let i = match index_of(&world.workplaces, workplace.0) {
        Some(i) => i,
        None => {
            return Err(Reject::new(RejectCode::UnknownWorkplace, { let mut m = say("no workplace "); put_workplace(&mut m, workplace); m }));
        },
    };
    let wp = &world.workplaces[i];
    if wp.org != org.id {
        return Err(Reject::new(RejectCode::NotAuthorized, { let mut m = String::new(); put_workplace(&mut m, workplace); put(&mut m, " is not "); put_name(&mut m, &org.name); put(&mut m, "'s"); m }));
    }
    Ok(wp)
}

/// What `InstallMachines` emits: machines from the managed org's inventory
/// into one of its workplaces.
pub open spec fn spec_install_machines(
    w: World,
    actor: Actor,
    on_behalf_of: Option<OrgId>,
    org: OrgId,
    workplace: WorkplaceId,
    qty: u32,
) -> Result<Seq<Event>, RejectCode> {
    match spec_managed_org(w, actor, on_behalf_of, org) {
        Err(c) => Err(c),
        Ok(oi) => match spec_workplace_of_org(w, w.orgs@[oi], workplace) {
            Err(c) => Err(c),
            Ok(_) => if qty == 0 {
                Err(RejectCode::InvalidQuantity)
            } else if w.orgs@[oi].inventory.machines < qty {
                Err(RejectCode::InsufficientGoods)
            } else {
                Ok(seq![Event::MachinesInstalled { workplace, qty }])
            },
        },
    }
}

/// `InstallMachines`: org inventory to workplace.
pub fn install_machines<C>(world: &World, envelope: &Envelope<C>, org: OrgId, workplace: WorkplaceId, qty: u32) -> (r: Result<Vec<Event>, Reject>)
    ensures
        match (r, spec_install_machines(*world, envelope.actor, envelope.on_behalf_of, org, workplace, qty)) {
            (Ok(v), Ok(s)) => v@ == s,
            (Err(e), Err(code)) => e.code == code,
            _ => false,
        },
{
    let o = managed_org(world, envelope, org)?;
    workplace_of_org(world, o, workplace)?;
    if qty == 0 {
        return Err(Reject::new(RejectCode::InvalidQuantity, "qty must be positive".to_string()));
    }
    if o.inventory.machines < qty {
        return Err(Reject::new(RejectCode::InsufficientGoods, { let mut m = String::new(); put_name(&mut m, &o.name); put(&mut m, " holds "); put_num(&mut m, o.inventory.machines as u64); put(&mut m, " Machines"); m }));
    }
    let mut v: Vec<Event> = Vec::new();
    v.push(Event::MachinesInstalled { workplace, qty });
    proof {
        assert(v@ =~= seq![Event::MachinesInstalled { workplace, qty }]);
    }
    Ok(v)
}

/// What `UninstallMachines` emits: machines from one of the managed org's
/// workplaces back to its inventory, no more than are installed.
pub open spec fn spec_uninstall_machines(
    w: World,
    actor: Actor,
    on_behalf_of: Option<OrgId>,
    org: OrgId,
    workplace: WorkplaceId,
    qty: u32,
) -> Result<Seq<Event>, RejectCode> {
    match spec_managed_org(w, actor, on_behalf_of, org) {
        Err(c) => Err(c),
        Ok(oi) => match spec_workplace_of_org(w, w.orgs@[oi], workplace) {
            Err(c) => Err(c),
            Ok(wi) => if qty == 0 || qty > w.workplaces@[wi].machines {
                Err(RejectCode::InvalidQuantity)
            } else {
                Ok(seq![Event::MachinesUninstalled { workplace, qty }])
            },
        },
    }
}

/// `UninstallMachines`: workplace to org inventory.
pub fn uninstall_machines<C>(world: &World, envelope: &Envelope<C>, org: OrgId, workplace: WorkplaceId, qty: u32) -> (r: Result<Vec<Event>, Reject>)
    ensures
        match (r, spec_uninstall_machines(*world, envelope.actor, envelope.on_behalf_of, org, workplace, qty)) {
            (Ok(v), Ok(s)) => v@ == s,
            (Err(e), Err(code)) => e.code == code,
            _ => false,
        },
{
    let o = managed_org(world, envelope, org)?;
    let wp = workplace_of_org(world, o, workplace)?;
    if qty == 0 || qty > wp.machines {
        return Err(Reject::new(RejectCode::InvalidQuantity, { let mut m = String::new(); put_workplace(&mut m, workplace); put(&mut m, " has "); put_num(&mut m, wp.machines as u64); put(&mut m, " machines"); m }));
    }
    let mut v: Vec<Event> = Vec::new();
    v.push(Event::MachinesUninstalled { workplace, qty });
    proof {
        assert(v@ =~= seq![Event::MachinesUninstalled { workplace, qty }]);
    }
    Ok(v)
}

/// What `AddWorkplace` emits: a workplace of the managed org, built from
/// its Materials, on the slot the land gives it.
pub open spec fn spec_add_workplace(
    w: World,
    actor: Actor,
    on_behalf_of: Option<OrgId>,
    org: OrgId,
    kind: WorkplaceKind,
    wanted: Option<SlotId>,
) -> Result<Seq<Event>, RejectCode> {
    match spec_managed_org(w, actor, on_behalf_of, org) {
        Err(c) => Err(c),
        Ok(oi) => if w.orgs@[oi].inventory.materials < w.params.founding.materials {
            Err(RejectCode::InsufficientGoods)
        } else {
            match spec_slot_for(w, kind, wanted) {
                Err(c) => Err(c),
                Ok(slot) => Ok(
                    seq![
                        Event::WorkplaceAdded {
                            workplace: w.next.workplace,
                            org,
                            kind,
                            slot,
                            materials_consumed: w.params.founding.materials,
                        },
                    ],
                ),
            }
        },
    }
}

/// `AddWorkplace`: the manager adds a workplace from org Materials.
pub fn add_workplace<C>(world: &World, envelope: &Envelope<C>, org: OrgId, kind: WorkplaceKind, wanted: Option<SlotId>) -> (r: Result<Vec<Event>, Reject>)
    ensures
        match (r, spec_add_workplace(*world, envelope.actor, envelope.on_behalf_of, org, kind, wanted)) {
            (Ok(v), Ok(s)) => v@ == s,
            (Err(e), Err(code)) => e.code == code,
            _ => false,
        },
{
    let o = managed_org(world, envelope, org)?;
    let materials = world.params.founding.materials;
    if o.inventory.materials < materials {
        return Err(Reject::new(RejectCode::InsufficientGoods, { let mut m = say("a workplace needs "); put_num(&mut m, materials as u64); put(&mut m, " Materials; "); put_name(&mut m, &o.name); put(&mut m, " holds "); put_num(&mut m, o.inventory.materials as u64); m }));
    }
    let slot = slot_for(world, kind, wanted)?;
    let mut v: Vec<Event> = Vec::new();
    v.push(Event::WorkplaceAdded { workplace: world.next.workplace, org, kind, slot, materials_consumed: materials });
    proof {
        assert(v@ =~= seq![
            Event::WorkplaceAdded { workplace: world.next.workplace, org, kind, slot, materials_consumed: materials },
        ]);
    }
    Ok(v)
}

/// Who may appoint an org's manager: a firm's controlling owner, a
/// member-owned org's manager, the system for a society-owned org.
pub open spec fn may_appoint(o: Org, actor: Actor, by: CitizenId) -> bool {
    match o.ownership {
        Ownership::Shares { .. } => spec_controlling_owner(o) == Some(by),
        Ownership::Members => o.manager == Some(by),
        Ownership::Society => actor == Actor::System,
    }
}

/// What `AppointManager` emits: the appointment (or vacancy), by whoever
/// may appoint, of a citizen who exists.
pub open spec fn spec_appoint_manager(w: World, actor: Actor, org: OrgId, citizen: Option<CitizenId>) -> Result<Seq<Event>, RejectCode> {
    match spec_acting_citizen(w, actor) {
        Err(c) => Err(c),
        Ok(ci) => match find(w.orgs@, org.0) {
            None => Err(RejectCode::UnknownOrg),
            Some(oi) => if !may_appoint(w.orgs@[oi], actor, w.citizens@[ci].id) {
                Err(RejectCode::NotControllingOwner)
            } else if citizen matches Some(c) && find(w.citizens@, c.0) is None {
                Err(RejectCode::UnknownCitizen)
            } else {
                Ok(seq![Event::ManagerAppointed { org, citizen }])
            },
        },
    }
}

/// `AppointManager`, by the controlling owner (firms) or the current
/// manager (member-owned orgs).
pub fn appoint_manager<C>(world: &World, envelope: &Envelope<C>, org: OrgId, citizen: Option<CitizenId>) -> (r: Result<Vec<Event>, Reject>)
    ensures
        match (r, spec_appoint_manager(*world, envelope.actor, org, citizen)) {
            (Ok(v), Ok(s)) => v@ == s,
            (Err(e), Err(code)) => e.code == code,
            _ => false,
        },
{
    let actor = acting_citizen(world, envelope)?;
    let i = match index_of(&world.orgs, org.0) {
        Some(i) => i,
        None => {
            return Err(Reject::new(RejectCode::UnknownOrg, { let mut m = say("no org "); put_org(&mut m, org); m }));
        },
    };
    let o = &world.orgs[i];
    let allowed = match &o.ownership {
        Ownership::Shares { .. } => controlling_owner(o) == Some(actor.id),
        Ownership::Members => o.manager == Some(actor.id),
        Ownership::Society => envelope.actor == Actor::System,
    };
    if !allowed {
        return Err(Reject::new(RejectCode::NotControllingOwner, "only the controlling owner appoints".to_string()));
    }
    match citizen {
        Some(c) => {
            if !contains_key(&world.citizens, c.0) {
                return Err(Reject::new(RejectCode::UnknownCitizen, { let mut m = say("no citizen "); put_citizen(&mut m, c); m }));
            }
        },
        None => {},
    }
    let mut v: Vec<Event> = Vec::new();
    v.push(Event::ManagerAppointed { org, citizen });
    proof {
        assert(v@ =~= seq![Event::ManagerAppointed { org, citizen }]);
    }
    Ok(v)
}

/// Whether `c` is white space, as `char::is_whitespace` counts it (the
/// Unicode `White_Space` property).
pub open spec fn is_white_space(c: char) -> bool {
    let n = c as u32;
    ||| 9 <= n <= 13
    ||| n == 32
    ||| n == 0x85
    ||| n == 0xa0
    ||| n == 0x1680
    ||| 0x2000 <= n <= 0x200a
    ||| n == 0x2028
    ||| n == 0x2029
    ||| n == 0x202f
    ||| n == 0x205f
    ||| n == 0x3000
}

/// Whether a text is empty once trimmed: white space throughout.
pub open spec fn blank(s: Seq<char>) -> bool {
    forall|i: int| 0 <= i < s.len() ==> is_white_space(#[trigger] s[i])
}

/// Whether `c` is white space.
fn white_space(c: char) -> (b: bool)
    ensures
        b == is_white_space(c),
{
    let n = c as u32;
    (9 <= n && n <= 13) || n == 32 || n == 0x85 || n == 0xa0 || n == 0x1680 || (0x2000 <= n && n <= 0x200a) || n
        == 0x2028 || n == 0x2029 || n == 0x202f || n == 0x205f || n == 0x3000
}

/// Whether a text is empty once trimmed.
pub fn is_blank(s: &str) -> (b: bool)
    ensures
        b == blank(s@),
{
    let n = s.unicode_len();
    let mut i: usize = 0;
    while i < n
        invariant
            i <= n,
            n == s@.len(),
            forall|j: int| 0 <= j < i ==> is_white_space(#[trigger] s@[j]),
        decreases n - i,
    {
        if !white_space(s.get_char(i)) {
            return false;
        }
        i = i + 1;
    }
    true
}

/// What founding an org costs: the founding fee where money exists.
pub open spec fn founding_fee(w: World) -> Money {
    if w.constitution.spec_has_money() {
        w.params.money.founding_cost_money
    } else {
        Money(0)
    }
}

/// The refusals of `FoundOrg`, checked in turn; else the founder's position.
pub open spec fn spec_found_check(
    w: World,
    actor: Actor,
    kind: OrgKind,
    name: Seq<char>,
    first_workplace: Option<(WorkplaceKind, Option<SlotId>)>,
) -> Result<int, RejectCode> {
    match spec_acting_citizen(w, actor) {
        Err(c) => Err(c),
        Ok(ci) => {
            let c = w.citizens@[ci];
            if kind == OrgKind::Collective || kind == OrgKind::StateEnterprise {
                Err(RejectCode::NotAuthorized)
            } else if c.flags.options_narrowed {
                Err(RejectCode::OptionsNarrowed)
            } else if blank(name) {
                Err(RejectCode::InvalidQuantity)
            } else if c.household.balance.0 < founding_fee(w).0 {
                Err(RejectCode::InsufficientFunds)
            } else {
                match first_workplace {
                    None => Ok(ci),
                    Some((wk, wanted)) => if c.household.pantry.materials < w.params.founding.materials {
                        Err(RejectCode::InsufficientGoods)
                    } else {
                        match spec_slot_for(w, wk, wanted) {
                            Err(e) => Err(e),
                            Ok(_) => Ok(ci),
                        }
                    },
                }
            }
        },
    }
}

/// The registry a founder's org opens with: a firm's shares all the
/// founder's, members for the member-owned kinds.
pub open spec fn founded_ownership(o: Ownership, kind: OrgKind, founder: CitizenId, shares: u64) -> bool {
    match kind {
        OrgKind::Firm => o matches Ownership::Shares { issued, holdings } && issued == shares && holdings@ == seq![
            ShareHolding { holder: ShareHolder::Citizen(founder), qty: shares },
        ],
        _ => o is Members,
    }
}

/// The memo of the founder's Materials.
pub open spec fn founding_memo() -> Seq<char> {
    seq!['f', 'o', 'u', 'n', 'd', 'i', 'n', 'g']
}

/// Whether `v` is the founding of an org by `c`: the org with its name,
/// founder, manager, registry and fee, then, for a first workplace, the
/// founder's Materials to the org and the workplace on its slot.
pub open spec fn founding_events(
    v: Seq<Event>,
    w: World,
    c: Citizen,
    kind: OrgKind,
    name: Seq<char>,
    first_workplace: Option<(WorkplaceKind, Option<SlotId>)>,
) -> bool {
    let org = w.next.org;
    let materials = w.params.founding.materials;
    &&& v.len() == (if first_workplace is Some {
        3int
    } else {
        1int
    })
    &&& v[0] matches Event::OrgFounded { org: o, kind: k, name: n, founder, ownership, manager, fee_burned } && o
        == org && k == kind && n@ == name && founder == Some(c.id) && manager == Some(c.id) && fee_burned
        == founding_fee(w) && founded_ownership(ownership, kind, c.id, w.params.founding.initial_shares as u64)
    &&& first_workplace matches Some((wk, wanted)) ==> {
        &&& v[1] matches Event::Transferred { from, to, asset, memo } && from == Party::Citizen(c.id) && to
            == Party::Org(org) && asset == Asset::Good(Good::Materials, materials) && memo@ == founding_memo()
        &&& v[2] == Event::WorkplaceAdded {
            workplace: w.next.workplace,
            org,
            kind: wk,
            slot: spec_slot_for(w, wk, wanted)->Ok_0,
            materials_consumed: materials,
        }
    }
}

/// `FoundOrg`: a citizen founds a firm, cooperative or association, paying
/// the fee and, for a first workplace, the Materials it takes (collective
/// orgs belong to the society and are seeded, not founded).
pub fn found_org<C>(
    world: &World,
    envelope: &Envelope<C>,
    kind: OrgKind,
    name: &str,
    first_workplace: Option<(WorkplaceKind, Option<SlotId>)>,
) -> (r: Result<Vec<Event>, Reject>)
    ensures
        match (r, spec_found_check(*world, envelope.actor, kind, name@, first_workplace)) {
            (Ok(v), Ok(ci)) => founding_events(v@, *world, world.citizens@[ci], kind, name@, first_workplace),
            (Err(e), Err(code)) => e.code == code,
            _ => false,
        },
{
    let citizen = acting_citizen(world, envelope)?;
    if matches!(kind, OrgKind::Collective | OrgKind::StateEnterprise) {
        return Err(Reject::new(RejectCode::NotAuthorized, "collective orgs are seeded by the society".to_string()));
    }
    if citizen.flags.options_narrowed {
        return Err(Reject::new(RejectCode::OptionsNarrowed, "a destitute citizen cannot found an org".to_string()));
    }
    if is_blank(name) {
        return Err(Reject::new(RejectCode::InvalidQuantity, "name must not be empty".to_string()));
    }
    let p = &world.params;
    let fee = if world.constitution.has_money() {
        p.money.founding_cost_money
    } else {
        Money(0)
    };
    if citizen.household.balance.0 < fee.0 {
        return Err(Reject::new(RejectCode::InsufficientFunds, { let mut m = say("founding costs "); put_money(&mut m, fee); put(&mut m, "; balance is "); put_money(&mut m, citizen.household.balance); m }));
    }
    let org = world.next.org;
    let shares = p.founding.initial_shares as u64;
    let ownership = match kind {
        OrgKind::Firm => {
            let mut holdings: Vec<ShareHolding> = Vec::new();
            holdings.push(ShareHolding { holder: ShareHolder::Citizen(citizen.id), qty: shares });
            proof {
                assert(holdings@ =~= seq![ShareHolding { holder: ShareHolder::Citizen(citizen.id), qty: shares }]);
            }
            Ownership::Shares { issued: shares, holdings }
        },
        _ => Ownership::Members,
    };
    let mut v: Vec<Event> = Vec::new();
    v.push(
        Event::OrgFounded {
            org,
            kind,
            name: name.to_owned(),
            founder: Some(citizen.id),
            ownership,
            manager: Some(citizen.id),
            fee_burned: fee,
        },
    );
    match first_workplace {
        Some((wk, wanted)) => {
            let materials = p.founding.materials;
            if citizen.household.pantry.materials < materials {
                return Err(Reject::new(RejectCode::InsufficientGoods, { let mut m = say("a workplace needs "); put_num(&mut m, materials as u64); put(&mut m, " Materials; pantry holds "); put_num(&mut m, citizen.household.pantry.materials as u64); m }));
            }
            let slot = slot_for(world, wk, wanted)?;
            let mut memo = String::new();
            memo.append("founding");
            proof {
                reveal_strlit("founding");
                assert(memo@ =~= founding_memo());
            }
            v.push(
                Event::Transferred {
                    from: Party::Citizen(citizen.id),
                    to: Party::Org(org),
                    asset: Asset::Good(Good::Materials, materials),
                    memo,
                },
            );
            v.push(Event::WorkplaceAdded { workplace: world.next.workplace, org, kind: wk, slot, materials_consumed: materials });
            proof {
                assert(spec_slot_for(*world, wk, wanted)->Ok_0 == slot);
            }
        },
        None => {},
    }
    proof {
        let ci = spec_found_check(*world, envelope.actor, kind, name@, first_workplace)->Ok_0;
        assert(spec_found_check(*world, envelope.actor, kind, name@, first_workplace) is Ok);
        assert(world.citizens@[ci] == *citizen);
    }
    Ok(v)
}

} // verus!
