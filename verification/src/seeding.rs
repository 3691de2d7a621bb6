//! Seeding a society's starting economy: the legacy orgs and their
//! workplaces, the first dwellings, householders up to the population
//! floor, and a householder manager for each org.
use crate::constitution::{LaborMode, Ownership, Pricing};
use crate::event::Event;
use crate::ids::{CitizenId, DwellingId, Epoch, OrgId, SlotId, WorkplaceId};
use crate::kinds::{CitizenKind, Good, OrgKind, PerGood, WorkplaceKind};
use crate::ledger::{Asset, Holder};
use crate::money::{digits, push_digits, Money};
use crate::params::{PerKind, Params};
use crate::sum::{lemma_sum_take_all, lemma_sum_take_step, seq_sum};
use crate::world::{kind_offset, slots_of, total_slots, Citizen, ShareHolder, ShareHolding, World};
use vstd::prelude::*;

verus! {

/// The org kind a seeded workplace belongs to, per the constitution: firms
/// under private ownership, cooperatives under cooperative ownership, and
/// under collective ownership state enterprises where prices are
/// administered and collectives elsewhere.
pub open spec fn spec_seeded_org_kind(w: World) -> OrgKind {
    match w.constitution.ownership {
        Ownership::Private => OrgKind::Firm,
        Ownership::Cooperative => OrgKind::Cooperative,
        Ownership::Collective => match w.constitution.pricing {
            Pricing::Administered => OrgKind::StateEnterprise,
            _ => OrgKind::Collective,
        },
    }
}

/// The org kind a seeded workplace belongs to.
pub fn seeded_org_kind(world: &World) -> (k: OrgKind)
    ensures
        k == spec_seeded_org_kind(*world),
{
    match world.constitution.ownership {
        Ownership::Private => OrgKind::Firm,
        Ownership::Cooperative => OrgKind::Cooperative,
        Ownership::Collective => match world.constitution.pricing {
            Pricing::Administered => OrgKind::StateEnterprise,
            _ => OrgKind::Collective,
        },
    }
}

/// An event of the epoch's seeding, with its names and registry by content.
pub enum Planned {
    EpochStarted { epoch: Epoch },
    OrgFounded { org: OrgId, kind: OrgKind, name: Seq<char>, shares: u64 },
    WorkplaceAdded { workplace: WorkplaceId, org: OrgId, kind: WorkplaceKind, slot: Option<SlotId> },
    Seeded { holder: Holder, asset: Asset },
    DwellingBuilt { dwelling: DwellingId, org: OrgId },
    DwellingTransferred { dwelling: DwellingId },
    HouseholderJoined { citizen: CitizenId, handle: Seq<char>, endowment: Money, dwelling: Option<DwellingId> },
    Assigned { workplace: WorkplaceId, citizen: CitizenId },
    ManagerAppointed { org: OrgId, citizen: CitizenId },
    MemberAdmitted { org: OrgId, citizen: CitizenId },
}

/// Whether an org of `kind` founded with `shares` has the opening registry:
/// a firm's shares all on its own line, members for member-owned kinds,
/// the society for society-owned ones.
pub open spec fn opening_ownership(o: crate::world::Ownership, kind: OrgKind, shares: u64) -> bool {
    match kind {
        OrgKind::Firm => o matches crate::world::Ownership::Shares { issued, holdings } && issued == shares && holdings@
            == seq![ShareHolding { holder: ShareHolder::OrgSelf, qty: shares }],
        OrgKind::Cooperative | OrgKind::Association | OrgKind::Union => o is Members,
        OrgKind::Collective | OrgKind::StateEnterprise => o is Society,
    }
}

/// Whether event `e` is the planned `d`.
pub open spec fn described(e: Event, d: Planned) -> bool {
    match (e, d) {
        (Event::EpochStarted { epoch }, Planned::EpochStarted { epoch: b }) => epoch == b,
        (
            Event::OrgFounded { org, kind, name, founder, ownership, manager, fee_burned },
            Planned::OrgFounded { org: o2, kind: k2, name: n2, shares },
        ) => {
            &&& org == o2
            &&& kind == k2
            &&& name@ == n2
            &&& founder is None
            &&& manager is None
            &&& fee_burned == Money(0)
            &&& opening_ownership(ownership, kind, shares)
        },
        (
            Event::WorkplaceAdded { workplace, org, kind, slot, materials_consumed },
            Planned::WorkplaceAdded { workplace: w2, org: o2, kind: k2, slot: s2 },
        ) => workplace == w2 && org == o2 && kind == k2 && slot == s2 && materials_consumed == 0,
        (Event::Seeded { holder, asset }, Planned::Seeded { holder: h2, asset: a2 }) => holder == h2 && asset == a2,
        (
            Event::DwellingBuilt { dwelling, org, workplace, materials_consumed },
            Planned::DwellingBuilt { dwelling: d2, org: o2 },
        ) => dwelling == d2 && org == o2 && workplace is None && materials_consumed == 0,
        (Event::DwellingTransferred { dwelling, to }, Planned::DwellingTransferred { dwelling: d2 }) => dwelling == d2
            && to == crate::world::Owner::Society,
        (
            Event::HouseholderJoined { citizen, handle, endowment, dwelling },
            Planned::HouseholderJoined { citizen: c2, handle: h2, endowment: e2, dwelling: d2 },
        ) => citizen == c2 && handle@ == h2 && endowment == e2 && dwelling == d2,
        (Event::Assigned { workplace, citizen, contract }, Planned::Assigned { workplace: w2, citizen: c2 }) => workplace
            == w2 && citizen == c2 && contract is None,
        (Event::ManagerAppointed { org, citizen }, Planned::ManagerAppointed { org: o2, citizen: c2 }) => org == o2
            && citizen == Some(c2),
        (Event::MemberAdmitted { org, citizen }, Planned::MemberAdmitted { org: o2, citizen: c2 }) => org == o2 && citizen
            == c2,
        _ => false,
    }
}

/// The events `es` are the plan `ps`, one for one.
pub open spec fn describes(es: Seq<Event>, ps: Seq<Planned>) -> bool {
    &&& es.len() == ps.len()
    &&& forall|i: int| 0 <= i < es.len() ==> described(#[trigger] es[i], ps[i])
}

/// Events that are their plans, followed by more that are theirs.
proof fn lemma_describes_append(a: Seq<Event>, pa: Seq<Planned>, b: Seq<Event>, pb: Seq<Planned>)
    requires
        describes(a, pa),
        describes(b, pb),
    ensures
        describes(a + b, pa + pb),
{
    assert forall|i: int| 0 <= i < (a + b).len() implies described(#[trigger] (a + b)[i], (pa + pb)[i]) by {
        if i < a.len() {
            assert((a + b)[i] == a[i] && (pa + pb)[i] == pa[i]);
        } else {
            assert((a + b)[i] == b[i - a.len()] && (pa + pb)[i] == pb[i - a.len()]);
        }
    }
}

/// One more event that is its plan.
proof fn lemma_describes_push(a: Seq<Event>, pa: Seq<Planned>, e: Event, d: Planned)
    requires
        describes(a, pa),
        described(e, d),
    ensures
        describes(a.push(e), pa.push(d)),
{
    assert forall|i: int| 0 <= i < a.push(e).len() implies described(#[trigger] a.push(e)[i], pa.push(d)[i]) by {
        if i < a.len() {
            assert(a.push(e)[i] == a[i] && pa.push(d)[i] == pa[i]);
        }
    }
}

/// Every workplace kind, in declaration order.
pub open spec fn all_kinds() -> Seq<WorkplaceKind> {
    seq![
        WorkplaceKind::Farm,
        WorkplaceKind::Mine,
        WorkplaceKind::Foundry,
        WorkplaceKind::Mill,
        WorkplaceKind::Workshop,
        WorkplaceKind::MachineShop,
        WorkplaceKind::Builder,
    ]
}

/// The seeded workplaces of one kind: the first, second, ... of it.
pub open spec fn kind_run(k: WorkplaceKind, n: u32) -> Seq<(WorkplaceKind, u32)> {
    Seq::new(n as nat, |i: int| (k, i as u32))
}

/// The seeded workplaces of the first `m` kinds, kind by kind.
pub open spec fn seats_upto(p: Params, m: int) -> Seq<(WorkplaceKind, u32)>
    decreases m,
{
    if m <= 0 {
        Seq::empty()
    } else {
        seats_upto(p, m - 1) + kind_run(all_kinds()[m - 1], p.seeded_workplaces.spec_get(all_kinds()[m - 1]))
    }
}

/// Every seeded workplace: its kind and its number within the kind.
pub open spec fn seats(p: Params) -> Seq<(WorkplaceKind, u32)> {
    seats_upto(p, 7)
}

/// The seats of the first kinds are the first seats.
proof fn lemma_seats_prefix(p: Params, m: int, m2: int)
    requires
        0 <= m <= m2 <= 7,
    ensures
        seats_upto(p, m).len() <= seats_upto(p, m2).len(),
        forall|x: int| 0 <= x < seats_upto(p, m).len() ==> #[trigger] seats_upto(p, m2)[x] == seats_upto(p, m)[x],
    decreases m2 - m,
{
    if m < m2 {
        lemma_seats_prefix(p, m, m2 - 1);
        assert forall|x: int| 0 <= x < seats_upto(p, m).len() implies #[trigger] seats_upto(p, m2)[x] == seats_upto(p, m)[x] by {
            assert(seats_upto(p, m2)[x] == seats_upto(p, m2 - 1)[x]);
        }
    }
}

/// Where the `i`th seeded workplace of kind `k` stands: the `i`th slot of
/// its kind in the freshly cut land, where there is one.
pub open spec fn seat_slot(land: PerKind<Option<u32>>, k: WorkplaceKind, i: u32) -> Option<SlotId> {
    if (i as int) < slots_of(land.spec_get(k)) {
        Some(SlotId((kind_offset(land, k) + i) as u32))
    } else {
        None
    }
}

/// How a workplace kind reads in a legacy org's name.
pub open spec fn kind_title(k: WorkplaceKind) -> Seq<char> {
    match k {
        WorkplaceKind::Farm => seq!['F', 'a', 'r', 'm'],
        WorkplaceKind::Mine => seq!['M', 'i', 'n', 'e'],
        WorkplaceKind::Mill => seq!['M', 'i', 'l', 'l'],
        WorkplaceKind::Foundry => seq!['F', 'o', 'u', 'n', 'd', 'r', 'y'],
        WorkplaceKind::Workshop => seq!['W', 'o', 'r', 'k', 's', 'h', 'o', 'p'],
        WorkplaceKind::MachineShop => seq!['M', 'a', 'c', 'h', 'i', 'n', 'e', ' ', 'S', 'h', 'o', 'p'],
        WorkplaceKind::Builder => seq!['B', 'u', 'i', 'l', 'd', 'e', 'r', 's'],
    }
}

/// A legacy org's name: `Legacy <kind> No. <n>`.
pub open spec fn legacy_name(k: WorkplaceKind, i: u32) -> Seq<char> {
    seq!['L', 'e', 'g', 'a', 'c', 'y', ' '] + kind_title(k) + seq![' ', 'N', 'o', '.', ' '] + digits((i + 1) as nat)
}

/// A householder's handle: `H-<id>`.
pub open spec fn householder_handle(c: CitizenId) -> Seq<char> {
    seq!['H', '-'] + digits(c.0 as nat)
}

/// Whether the seeded orgs belong to the society.
pub open spec fn society_owned(kind: OrgKind) -> bool {
    kind == OrgKind::Collective || kind == OrgKind::StateEnterprise
}

/// Where society-owned orgs keep their goods: the Common Store, else the
/// state stock; none where the orgs are not the society's.
pub open spec fn society_stock(w: World) -> Option<Holder> {
    if society_owned(spec_seeded_org_kind(w)) {
        if w.store is Some {
            Some(Holder::Store)
        } else if w.state_stock is Some {
            Some(Holder::StateStock)
        } else {
            None
        }
    } else {
        None
    }
}

/// The `g`th seeded org.
pub open spec fn seat_org(w: World, g: int) -> OrgId {
    OrgId((w.next.org.0 + g) as u32)
}

/// The `g`th seeded workplace.
pub open spec fn seat_workplace(w: World, g: int) -> WorkplaceId {
    WorkplaceId((w.next.workplace.0 + g) as u32)
}

/// Good `g` of `inv` seeded to `h`, where there is any.
pub open spec fn good_seed(inv: PerGood<u32>, g: Good, h: Holder) -> Seq<Planned> {
    if inv.spec_get(g) > 0 {
        seq![Planned::Seeded { holder: h, asset: Asset::Good(g, inv.spec_get(g)) }]
    } else {
        Seq::empty()
    }
}

/// Goods of `inv` seeded to `h`, good by good in declaration order, where there are any.
pub open spec fn stock_seeds(inv: PerGood<u32>, h: Holder) -> Seq<Planned> {
    good_seed(inv, Good::Grain, h) + good_seed(inv, Good::Ore, h) + good_seed(inv, Good::Materials, h) + good_seed(
        inv,
        Good::Food,
        h,
    ) + good_seed(inv, Good::Wares, h) + good_seed(inv, Good::Machines, h)
}

/// What seeding the `g`th legacy org emits: the org, its workplace, its
/// treasury where money exists (the state's till where it shares one), and
/// its opening stock (in the society's stock where it keeps one).
pub open spec fn seat_plan(w: World, g: int) -> Seq<Planned> {
    let (k, i) = seats(w.params)[g];
    let org = seat_org(w, g);
    let kind = spec_seeded_org_kind(w);
    let p = w.params;
    let treasury = if w.constitution.spec_has_money() && p.money.legacy_treasury.0 > 0 {
        seq![
            Planned::Seeded {
                holder: if society_stock(w) == Some(Holder::StateStock) {
                    Holder::StateStock
                } else {
                    Holder::Org(org)
                },
                asset: Asset::Money(p.money.legacy_treasury),
            },
        ]
    } else {
        Seq::empty()
    };
    let stock_holder = match society_stock(w) {
        Some(h) => h,
        None => Holder::Org(org),
    };
    seq![
        Planned::OrgFounded { org, kind, name: legacy_name(k, i), shares: p.founding.initial_shares as u64 },
        Planned::WorkplaceAdded { workplace: seat_workplace(w, g), org, kind: k, slot: seat_slot(p.land, k, i) },
    ] + treasury + stock_seeds(p.seeding.legacy_inventory.spec_get(k), stock_holder)
}

/// What seeding the first `n` legacy orgs emits.
pub open spec fn legacy_plan(w: World, n: int) -> Seq<Planned>
    decreases n,
{
    if n <= 0 {
        Seq::empty()
    } else {
        legacy_plan(w, n - 1) + seat_plan(w, n - 1)
    }
}

/// The number of seeded workplaces.
pub open spec fn seat_count(w: World) -> int {
    seats(w.params).len() as int
}

/// How many orgs own the first dwellings: the Builders, or the first org
/// where there are none.
pub open spec fn owner_count(w: World) -> int {
    let nb = w.params.seeded_workplaces.builder as int;
    if nb > 0 {
        nb
    } else if seat_count(w) > 0 {
        1
    } else {
        0
    }
}

/// The `j`th owner of the first dwellings.
pub open spec fn owner(w: World, j: int) -> OrgId {
    let nb = w.params.seeded_workplaces.builder as int;
    if nb > 0 {
        seat_org(w, seat_count(w) - nb + j)
    } else {
        seat_org(w, 0)
    }
}

/// The first `n` dwellings built, round robin over the owners.
pub open spec fn built_plan(w: World, n: int) -> Seq<Planned>
    decreases n,
{
    if n <= 0 {
        Seq::empty()
    } else {
        built_plan(w, n - 1) + seq![
            Planned::DwellingBuilt {
                dwelling: DwellingId((w.next.dwelling.0 + n - 1) as u32),
                org: owner(w, (n - 1) % owner_count(w)),
            },
        ]
    }
}

/// The first dwellings, where there is an org to own them.
pub open spec fn dwellings_plan(w: World) -> Seq<Planned> {
    if owner_count(w) > 0 {
        built_plan(w, w.params.initial_dwellings as int)
    } else {
        Seq::empty()
    }
}

/// The public dwellings a policy asks for.
pub open spec fn public_count(w: World) -> int {
    match w.policy.public_dwellings {
        Some(m) => if owner_count(w) > 0 {
            m as int
        } else {
            0
        },
        None => 0,
    }
}

/// The first `n` public dwellings: built by the owners, round robin, and
/// handed to the society.
pub open spec fn public_plan(w: World, n: int) -> Seq<Planned>
    decreases n,
{
    if n <= 0 {
        Seq::empty()
    } else {
        let d = DwellingId((w.next.dwelling.0 + w.params.initial_dwellings + n - 1) as u32);
        public_plan(w, n - 1) + seq![
            Planned::DwellingBuilt { dwelling: d, org: owner(w, (n - 1) % owner_count(w)) },
            Planned::DwellingTransferred { dwelling: d },
        ]
    }
}

/// A citizen, as a count where `keep` holds of them.
pub open spec fn counted_if(keep: spec_fn(Citizen) -> bool) -> spec_fn(Citizen) -> int {
    |c: Citizen|
        if keep(c) {
            1int
        } else {
            0int
        }
}

/// Whether a citizen is an active human.
pub open spec fn active_human() -> spec_fn(Citizen) -> bool {
    |c: Citizen| c.kind == CitizenKind::Human && !c.dormant
}

/// Whether a citizen is an active householder.
pub open spec fn active_householder() -> spec_fn(Citizen) -> bool {
    |c: Citizen| c.kind == CitizenKind::Householder && !c.dormant
}

/// The householders to add: the population floor less the active humans and
/// householders already there (a later epoch starts from none of either).
pub open spec fn fill_count(w: World, epoch: Epoch) -> int {
    let (humans, householders) = if epoch == 0 {
        (seq_sum(w.citizens@, counted_if(active_human())), seq_sum(w.citizens@, counted_if(active_householder())))
    } else {
        (0int, 0int)
    };
    let a = if w.params.population.floor >= humans {
        w.params.population.floor - humans
    } else {
        0
    };
    if a >= householders {
        a - householders
    } else {
        0
    }
}

/// The dwellings householders are housed in: every one just built where the
/// society keeps a stock, else the public ones.
pub open spec fn housing_count(w: World) -> int {
    if society_stock(w) is Some {
        if owner_count(w) > 0 {
            w.params.initial_dwellings + public_count(w)
        } else {
            0
        }
    } else {
        public_count(w)
    }
}

/// The `j`th dwelling a householder is housed in.
pub open spec fn housing(w: World, j: int) -> DwellingId {
    if society_stock(w) is Some {
        DwellingId((w.next.dwelling.0 + j) as u32)
    } else {
        DwellingId((w.next.dwelling.0 + w.params.initial_dwellings + j) as u32)
    }
}

/// A seeded workplace's staffing weight.
pub open spec fn seat_weight(p: Params, x: int) -> u32 {
    p.labor.balance_weights.spec_get(seats(p)[x].0)
}

/// Whether a seeded workplace can take another worker by the balancing rule.
pub open spec fn open_seat(p: Params, counts: Seq<u32>, x: int) -> bool {
    counts[x] < p.labor.max_workers_per_workplace && seat_weight(p, x) > 0
}

/// Whether seeded workplace `x` is staffed less, for its weight, than `y`.
pub open spec fn lighter(p: Params, counts: Seq<u32>, x: int, y: int) -> bool {
    counts[x] * seat_weight(p, y) < counts[y] * seat_weight(p, x)
}

/// Among the first `n` seeded workplaces, the one staffed least for its
/// weight (the earliest where several are), if any can take a worker.
pub open spec fn pick_upto(p: Params, counts: Seq<u32>, n: int) -> Option<int>
    decreases n,
{
    if n <= 0 {
        None
    } else {
        let b = pick_upto(p, counts, n - 1);
        if open_seat(p, counts, n - 1) && (b is None || lighter(p, counts, n - 1, b->0)) {
            Some(n - 1)
        } else {
            b
        }
    }
}

/// The seeded workplace the balancing rule picks.
pub open spec fn pick(p: Params, counts: Seq<u32>) -> Option<int> {
    pick_upto(p, counts, counts.len() as int)
}

/// Whether householders are assigned to workplaces.
pub open spec fn assigns(w: World) -> bool {
    w.constitution.labor == LaborMode::Assigned
}

/// The seeded workplaces' new workers after `j` householders have joined.
pub open spec fn counts_after(w: World, j: int) -> Seq<u32>
    decreases j,
{
    if j <= 0 {
        Seq::new(seat_count(w) as nat, |x: int| 0u32)
    } else {
        let c = counts_after(w, j - 1);
        if assigns(w) && pick(w.params, c) is Some {
            let x = pick(w.params, c)->0;
            c.update(x, (c[x] + 1) as u32)
        } else {
            c
        }
    }
}

/// The `j`th new householder.
pub open spec fn new_householder(w: World, j: int) -> CitizenId {
    CitizenId((w.next.citizen.0 + j) as u32)
}

/// What the `j`th householder's joining emits: the householder, housed
/// where a dwelling is left, then their workplace where they are assigned.
pub open spec fn householder_step(w: World, j: int) -> Seq<Planned> {
    let c = new_householder(w, j);
    let joined = Planned::HouseholderJoined {
        citizen: c,
        handle: householder_handle(c),
        endowment: if w.constitution.spec_has_money() {
            w.params.money.endowment
        } else {
            Money(0)
        },
        dwelling: if j < housing_count(w) {
            Some(housing(w, j))
        } else {
            None
        },
    };
    let counts = counts_after(w, j);
    if assigns(w) && pick(w.params, counts) is Some {
        seq![joined, Planned::Assigned { workplace: seat_workplace(w, pick(w.params, counts)->0), citizen: c }]
    } else {
        seq![joined]
    }
}

/// What the first `n` householders' joining emits.
pub open spec fn householders_plan(w: World, n: int) -> Seq<Planned>
    decreases n,
{
    if n <= 0 {
        Seq::empty()
    } else {
        householders_plan(w, n - 1) + householder_step(w, n - 1)
    }
}

/// The active householders among `s`, in order.
pub open spec fn active_householders(s: Seq<Citizen>) -> Seq<CitizenId>
    decreases s.len(),
{
    if s.len() == 0 {
        Seq::empty()
    } else if (active_householder())(s.last()) {
        active_householders(s.drop_last()).push(s.last().id)
    } else {
        active_householders(s.drop_last())
    }
}

/// The householders managers are drawn from: those already active (at the
/// first epoch), then the new ones.
pub open spec fn manager_pool(w: World, epoch: Epoch) -> Seq<CitizenId> {
    (if epoch == 0 {
        active_householders(w.citizens@)
    } else {
        Seq::empty()
    }) + Seq::new(fill_count(w, epoch) as nat, |j: int| new_householder(w, j))
}

/// What appointing the `i`th org's manager emits: the appointment, and for
/// a cooperative the manager's admission and place at its workplace.
pub open spec fn manager_step(w: World, epoch: Epoch, i: int) -> Seq<Planned> {
    let pool = manager_pool(w, epoch);
    let m = pool[i % pool.len() as int];
    let org = seat_org(w, i);
    if spec_seeded_org_kind(w) == OrgKind::Cooperative {
        seq![
            Planned::ManagerAppointed { org, citizen: m },
            Planned::MemberAdmitted { org, citizen: m },
            Planned::Assigned { workplace: seat_workplace(w, i), citizen: m },
        ]
    } else {
        seq![Planned::ManagerAppointed { org, citizen: m }]
    }
}

/// What appointing the first `n` orgs' managers emits, where there is anyone to appoint.
pub open spec fn managers_plan(w: World, epoch: Epoch, n: int) -> Seq<Planned>
    decreases n,
{
    if n <= 0 || manager_pool(w, epoch).len() == 0 {
        Seq::empty()
    } else {
        managers_plan(w, epoch, n - 1) + manager_step(w, epoch, n - 1)
    }
}

/// What starting an epoch emits: the epoch, the legacy orgs, the first and
/// public dwellings, the householders up to the floor, and the managers.
pub open spec fn spec_start_epoch(w: World, epoch: Epoch) -> Seq<Planned> {
    seq![Planned::EpochStarted { epoch }] + legacy_plan(w, seat_count(w)) + dwellings_plan(w) + public_plan(
        w,
        public_count(w),
    ) + householders_plan(w, fill_count(w, epoch)) + managers_plan(w, epoch, seat_count(w))
}

/// Whether every id the seeding hands out stays within range.
pub open spec fn seedable(w: World, epoch: Epoch) -> bool {
    &&& w.next.org.0 + seat_count(w) <= u32::MAX
    &&& w.next.workplace.0 + seat_count(w) <= u32::MAX
    &&& w.next.dwelling.0 + w.params.initial_dwellings + public_count(w) <= u32::MAX
    &&& w.next.citizen.0 + fill_count(w, epoch) <= u32::MAX
    &&& crate::world::total_slots(w.params.land) <= u32::MAX
}

/// Every workplace kind, in declaration order.
fn kinds_in_order() -> (r: Vec<WorkplaceKind>)
    ensures
        r@ == all_kinds(),
{
    let mut r: Vec<WorkplaceKind> = Vec::new();
    r.push(WorkplaceKind::Farm);
    r.push(WorkplaceKind::Mine);
    r.push(WorkplaceKind::Foundry);
    r.push(WorkplaceKind::Mill);
    r.push(WorkplaceKind::Workshop);
    r.push(WorkplaceKind::MachineShop);
    r.push(WorkplaceKind::Builder);
    proof {
        assert(r@ =~= all_kinds());
    }
    r
}

/// Every seeded workplace, kind by kind: its kind and its number within the kind.
fn seat_list(p: &Params) -> (r: Vec<(WorkplaceKind, u32)>)
    ensures
        r@ == seats(*p),
{
    let kinds = kinds_in_order();
    let mut r: Vec<(WorkplaceKind, u32)> = Vec::new();
    let mut m: usize = 0;
    while m < 7
        invariant
            m <= 7,
            kinds@ == all_kinds(),
            r@ == seats_upto(*p, m as int),
        decreases 7 - m,
    {
        let k = kinds[m];
        let n = p.seeded_workplaces.get(k);
        let mut i: u32 = 0;
        while i < n
            invariant
                i <= n,
                n == p.seeded_workplaces.spec_get(k),
                m < 7,
                k == all_kinds()[m as int],
                r@ == seats_upto(*p, m as int) + kind_run(k, i),
            decreases n - i,
        {
            r.push((k, i));
            proof {
                assert(r@ =~= seats_upto(*p, m as int) + kind_run(k, (i + 1) as u32));
            }
            i = i + 1;
        }
        m = m + 1;
    }
    r
}

/// Append how kind `k` reads in a legacy org's name.
fn push_kind_title(s: &mut String, k: WorkplaceKind)
    ensures
        final(s)@ == old(s)@ + kind_title(k),
{
    match k {
        WorkplaceKind::Farm => {
            s.append("Farm");
            proof {
                reveal_strlit("Farm");
            }
        },
        WorkplaceKind::Mine => {
            s.append("Mine");
            proof {
                reveal_strlit("Mine");
            }
        },
        WorkplaceKind::Mill => {
            s.append("Mill");
            proof {
                reveal_strlit("Mill");
            }
        },
        WorkplaceKind::Foundry => {
            s.append("Foundry");
            proof {
                reveal_strlit("Foundry");
            }
        },
        WorkplaceKind::Workshop => {
            s.append("Workshop");
            proof {
                reveal_strlit("Workshop");
            }
        },
        WorkplaceKind::MachineShop => {
            s.append("Machine Shop");
            proof {
                reveal_strlit("Machine Shop");
            }
        },
        WorkplaceKind::Builder => {
            s.append("Builders");
            proof {
                reveal_strlit("Builders");
            }
        },
    }
}

/// The name of the `i`th legacy org of kind `k`.
fn legacy_name_text(k: WorkplaceKind, i: u32) -> (s: String)
    ensures
        s@ == legacy_name(k, i),
{
    let mut s = String::new();
    s.append("Legacy ");
    proof {
        reveal_strlit("Legacy ");
    }
    push_kind_title(&mut s, k);
    s.append(" No. ");
    proof {
        reveal_strlit(" No. ");
    }
    push_digits(&mut s, i as u64 + 1);
    s
}

/// A householder's handle.
fn handle_text(c: CitizenId) -> (s: String)
    ensures
        s@ == householder_handle(c),
{
    let mut s = String::new();
    s.append("H-");
    proof {
        reveal_strlit("H-");
    }
    push_digits(&mut s, c.0 as u64);
    s
}

/// The opening registry of an org of `kind` founded with `shares`.
fn ownership_for(kind: OrgKind, shares: u64) -> (o: crate::world::Ownership)
    ensures
        opening_ownership(o, kind, shares),
{
    match kind {
        OrgKind::Firm => {
            let mut holdings: Vec<ShareHolding> = Vec::new();
            holdings.push(ShareHolding { holder: ShareHolder::OrgSelf, qty: shares });
            proof {
                assert(holdings@ =~= seq![ShareHolding { holder: ShareHolder::OrgSelf, qty: shares }]);
            }
            crate::world::Ownership::Shares { issued: shares, holdings }
        },
        OrgKind::Cooperative | OrgKind::Association | OrgKind::Union => crate::world::Ownership::Members,
        OrgKind::Collective | OrgKind::StateEnterprise => crate::world::Ownership::Society,
    }
}

/// Append events that are their plan.
fn extend(v: &mut Vec<Event>, e: Vec<Event>, Ghost(pv): Ghost<Seq<Planned>>, Ghost(pe): Ghost<Seq<Planned>>)
    requires
        describes(old(v)@, pv),
        describes(e@, pe),
    ensures
        describes(final(v)@, pv + pe),
{
    let mut e = e;
    proof {
        lemma_describes_append(v@, pv, e@, pe);
    }
    v.append(&mut e);
}

/// The seeding of good `g` of `inv` to `h`.
fn good_seed_events(inv: &PerGood<u32>, g: Good, h: Holder) -> (r: Vec<Event>)
    ensures
        describes(r@, good_seed(*inv, g, h)),
{
    let mut r: Vec<Event> = Vec::new();
    let q = inv.get(g);
    if q > 0 {
        r.push(Event::Seeded { holder: h, asset: Asset::Good(g, q) });
        proof {
            assert(described(r@[0], good_seed(*inv, g, h)[0]));
        }
    }
    r
}

/// The seeding of a stock `inv` to `h`, good by good.
fn stock_seed_events(inv: &PerGood<u32>, h: Holder) -> (r: Vec<Event>)
    ensures
        describes(r@, stock_seeds(*inv, h)),
{
    let ghost i = *inv;
    let mut r = good_seed_events(inv, Good::Grain, h);
    extend(&mut r, good_seed_events(inv, Good::Ore, h), Ghost(good_seed(i, Good::Grain, h)), Ghost(good_seed(i, Good::Ore, h)));
    let ghost a = good_seed(i, Good::Grain, h) + good_seed(i, Good::Ore, h);
    extend(&mut r, good_seed_events(inv, Good::Materials, h), Ghost(a), Ghost(good_seed(i, Good::Materials, h)));
    let ghost b = a + good_seed(i, Good::Materials, h);
    extend(&mut r, good_seed_events(inv, Good::Food, h), Ghost(b), Ghost(good_seed(i, Good::Food, h)));
    let ghost c = b + good_seed(i, Good::Food, h);
    extend(&mut r, good_seed_events(inv, Good::Wares, h), Ghost(c), Ghost(good_seed(i, Good::Wares, h)));
    let ghost d = c + good_seed(i, Good::Wares, h);
    extend(&mut r, good_seed_events(inv, Good::Machines, h), Ghost(d), Ghost(good_seed(i, Good::Machines, h)));
    r
}

/// The slots one kind's setting makes.
fn slots_count(n: Option<u32>) -> (c: u64)
    ensures
        c == slots_of(n),
{
    match n {
        Some(n) => n as u64,
        None => 0,
    }
}

/// Where kind `k`'s slots start in the freshly cut land.
fn land_offset(land: &PerKind<Option<u32>>, k: WorkplaceKind) -> (o: u64)
    ensures
        o == kind_offset(*land, k),
        o + slots_of(land.spec_get(k)) <= total_slots(*land),
{
    let farm = slots_count(land.farm);
    let mine = farm + slots_count(land.mine);
    let foundry = mine + slots_count(land.foundry);
    let mill = foundry + slots_count(land.mill);
    let workshop = mill + slots_count(land.workshop);
    let machine_shop = workshop + slots_count(land.machine_shop);
    match k {
        WorkplaceKind::Farm => 0,
        WorkplaceKind::Mine => farm,
        WorkplaceKind::Foundry => mine,
        WorkplaceKind::Mill => foundry,
        WorkplaceKind::Workshop => mill,
        WorkplaceKind::MachineShop => workshop,
        WorkplaceKind::Builder => machine_shop,
    }
}

/// Where society-owned orgs keep their goods.
fn society_stock_of(world: &World) -> (h: Option<Holder>)
    ensures
        h == society_stock(*world),
{
    let kind = seeded_org_kind(world);
    if matches!(kind, OrgKind::Collective | OrgKind::StateEnterprise) {
        if world.store.is_some() {
            Some(Holder::Store)
        } else if world.state_stock.is_some() {
            Some(Holder::StateStock)
        } else {
            None
        }
    } else {
        None
    }
}

/// What seeding the `g`th legacy org emits.
fn seat_events(world: &World, seat: (WorkplaceKind, u32), g: u32, kind: OrgKind, stock: Option<Holder>, money: bool) -> (r: Vec<Event>)
    requires
        0 <= g < seat_count(*world),
        seat == seats(world.params)[g as int],
        kind == spec_seeded_org_kind(*world),
        stock == society_stock(*world),
        money == world.constitution.spec_has_money(),
        world.next.org.0 + seat_count(*world) <= u32::MAX,
        world.next.workplace.0 + seat_count(*world) <= u32::MAX,
        total_slots(world.params.land) <= u32::MAX,
    ensures
        describes(r@, seat_plan(*world, g as int)),
{
    let p = &world.params;
    let (k, i) = seat;
    let org = OrgId(world.next.org.0 + g);
    let workplace = WorkplaceId(world.next.workplace.0 + g);
    let room = slots_count(p.land.get(k));
    let slot = if (i as u64) < room {
        let o = land_offset(&p.land, k);
        Some(SlotId((o + i as u64) as u32))
    } else {
        None
    };
    let mut r: Vec<Event> = Vec::new();
    r.push(
        Event::OrgFounded {
            org,
            kind,
            name: legacy_name_text(k, i),
            founder: None,
            ownership: ownership_for(kind, p.founding.initial_shares as u64),
            manager: None,
            fee_burned: Money(0),
        },
    );
    r.push(Event::WorkplaceAdded { workplace, org, kind: k, slot, materials_consumed: 0 });
    let ghost head = seq![
        Planned::OrgFounded { org, kind, name: legacy_name(k, i), shares: p.founding.initial_shares as u64 },
        Planned::WorkplaceAdded { workplace, org, kind: k, slot: seat_slot(p.land, k, i) },
    ];
    proof {
        assert(described(r@[0], head[0]));
        assert(described(r@[1], head[1]));
    }
    let ghost treasury: Seq<Planned> = Seq::empty();
    if money && p.money.legacy_treasury.0 > 0 {
        let purse = match stock {
            Some(Holder::StateStock) => Holder::StateStock,
            _ => Holder::Org(org),
        };
        r.push(Event::Seeded { holder: purse, asset: Asset::Money(p.money.legacy_treasury) });
        proof {
            treasury = seq![Planned::Seeded { holder: purse, asset: Asset::Money(p.money.legacy_treasury) }];
            assert(described(r@[2], (head + treasury)[2]));
            assert(describes(r@, head + treasury));
        }
    }
    let holder = match stock {
        Some(h) => h,
        None => Holder::Org(org),
    };
    let inv = p.seeding.legacy_inventory.get(k);
    extend(&mut r, stock_seed_events(&inv, holder), Ghost(head + treasury), Ghost(stock_seeds(inv, holder)));
    proof {
        assert(seat_plan(*world, g as int) == head + treasury + stock_seeds(inv, holder));
    }
    r
}

/// What seeding every legacy org emits.
fn legacy_events(world: &World, list: &Vec<(WorkplaceKind, u32)>) -> (r: Vec<Event>)
    requires
        list@ == seats(world.params),
        world.next.org.0 + seat_count(*world) <= u32::MAX,
        world.next.workplace.0 + seat_count(*world) <= u32::MAX,
        total_slots(world.params.land) <= u32::MAX,
    ensures
        describes(r@, legacy_plan(*world, seat_count(*world))),
{
    let kind = seeded_org_kind(world);
    let stock = society_stock_of(world);
    let money = world.constitution.has_money();
    let mut r: Vec<Event> = Vec::new();
    let mut g: usize = 0;
    while g < list.len()
        invariant
            g <= list@.len(),
            list@ == seats(world.params),
            kind == spec_seeded_org_kind(*world),
            stock == society_stock(*world),
            money == world.constitution.spec_has_money(),
            world.next.org.0 + seat_count(*world) <= u32::MAX,
            world.next.workplace.0 + seat_count(*world) <= u32::MAX,
            total_slots(world.params.land) <= u32::MAX,
            describes(r@, legacy_plan(*world, g as int)),
        decreases list@.len() - g,
    {
        let e = seat_events(world, list[g], g as u32, kind, stock, money);
        extend(&mut r, e, Ghost(legacy_plan(*world, g as int)), Ghost(seat_plan(*world, g as int)));
        g = g + 1;
    }
    r
}

/// The seeded workplaces number as many as the settings ask for.
proof fn lemma_seat_count(p: Params)
    ensures
        seats(p).len() == p.seeded_workplaces.farm + p.seeded_workplaces.mine + p.seeded_workplaces.foundry
            + p.seeded_workplaces.mill + p.seeded_workplaces.workshop + p.seeded_workplaces.machine_shop
            + p.seeded_workplaces.builder,
{
    reveal_with_fuel(seats_upto, 8);
}

/// How many orgs own the first dwellings.
fn owner_count_of(world: &World, sc: u64) -> (n: u64)
    requires
        sc == seat_count(*world),
    ensures
        n == owner_count(*world),
        n <= sc,
{
    proof {
        lemma_seat_count(world.params);
    }
    let nb = world.params.seeded_workplaces.builder as u64;
    if nb > 0 {
        nb
    } else if sc > 0 {
        1
    } else {
        0
    }
}

/// The `j`th owner of the first dwellings.
fn owner_of(world: &World, sc: u64, j: u64) -> (o: OrgId)
    requires
        sc == seat_count(*world),
        j < owner_count(*world),
        world.next.org.0 + sc <= u32::MAX,
    ensures
        o == owner(*world, j as int),
{
    proof {
        lemma_seat_count(world.params);
    }
    let nb = world.params.seeded_workplaces.builder as u64;
    if nb > 0 {
        OrgId((world.next.org.0 as u64 + (sc - nb + j)) as u32)
    } else {
        OrgId(world.next.org.0)
    }
}

/// The first dwellings, built round robin by their owners.
fn dwelling_events(world: &World, sc: u64) -> (r: Vec<Event>)
    requires
        sc == seat_count(*world),
        world.next.org.0 + sc <= u32::MAX,
        world.next.dwelling.0 + world.params.initial_dwellings <= u32::MAX,
    ensures
        describes(r@, dwellings_plan(*world)),
{
    let oc = owner_count_of(world, sc);
    let mut r: Vec<Event> = Vec::new();
    if oc > 0 {
        let n = world.params.initial_dwellings;
        let mut i: u32 = 0;
        while i < n
            invariant
                i <= n,
                n == world.params.initial_dwellings,
                oc == owner_count(*world),
                oc > 0,
                sc == seat_count(*world),
                world.next.org.0 + sc <= u32::MAX,
                world.next.dwelling.0 + world.params.initial_dwellings <= u32::MAX,
                describes(r@, built_plan(*world, i as int)),
            decreases n - i,
        {
            let dwelling = DwellingId(world.next.dwelling.0 + i);
            let org = owner_of(world, sc, i as u64 % oc);
            let ghost prev = r@;
            let ghost d = Planned::DwellingBuilt { dwelling, org };
            r.push(Event::DwellingBuilt { dwelling, org, workplace: None, materials_consumed: 0 });
            proof {
                lemma_describes_push(prev, built_plan(*world, i as int), r@.last(), d);
                assert(prev.push(r@.last()) =~= r@);
                assert(built_plan(*world, i as int).push(d) =~= built_plan(*world, i + 1));
            }
            i = i + 1;
        }
    }
    r
}

/// The public dwellings a policy asks for.
fn public_count_of(world: &World, oc: u64) -> (n: u64)
    requires
        oc == owner_count(*world),
    ensures
        n == public_count(*world),
{
    match world.policy.public_dwellings {
        Some(m) => if oc > 0 {
            m as u64
        } else {
            0
        },
        None => 0,
    }
}

/// The public dwellings: built round robin by the owners and handed to the society.
fn public_events(world: &World, sc: u64, pc: u64) -> (r: Vec<Event>)
    requires
        sc == seat_count(*world),
        pc == public_count(*world),
        world.next.org.0 + sc <= u32::MAX,
        world.next.dwelling.0 + world.params.initial_dwellings + pc <= u32::MAX,
    ensures
        describes(r@, public_plan(*world, pc as int)),
{
    let oc = owner_count_of(world, sc);
    let mut r: Vec<Event> = Vec::new();
    let mut i: u64 = 0;
    while i < pc
        invariant
            i <= pc,
            pc == public_count(*world),
            pc > 0 ==> oc > 0,
            oc == owner_count(*world),
            sc == seat_count(*world),
            world.next.org.0 + sc <= u32::MAX,
            world.next.dwelling.0 + world.params.initial_dwellings + pc <= u32::MAX,
            describes(r@, public_plan(*world, i as int)),
        decreases pc - i,
    {
        let dwelling = DwellingId((world.next.dwelling.0 as u64 + world.params.initial_dwellings as u64 + i) as u32);
        let org = owner_of(world, sc, i % oc);
        let ghost prev = r@;
        let ghost b = Planned::DwellingBuilt { dwelling, org };
        let ghost t = Planned::DwellingTransferred { dwelling };
        r.push(Event::DwellingBuilt { dwelling, org, workplace: None, materials_consumed: 0 });
        r.push(Event::DwellingTransferred { dwelling, to: crate::world::Owner::Society });
        proof {
            lemma_describes_append(prev, public_plan(*world, i as int), seq![r@[prev.len() as int], r@[prev.len() + 1int]], seq![b, t]);
            assert(prev + seq![r@[prev.len() as int], r@[prev.len() + 1int]] =~= r@);
        }
        i = i + 1;
    }
    r
}

/// The active citizens of `kind` (a human or a householder).
fn count_active(citizens: &Vec<Citizen>, kind: CitizenKind) -> (n: u64)
    ensures
        kind == CitizenKind::Human ==> n == seq_sum(citizens@, counted_if(active_human())),
        kind == CitizenKind::Householder ==> n == seq_sum(citizens@, counted_if(active_householder())),
        n <= citizens@.len(),
{
    let mut n: u64 = 0;
    let mut i: usize = 0;
    while i < citizens.len()
        invariant
            i <= citizens@.len(),
            n <= i,
            kind == CitizenKind::Human ==> n == seq_sum(citizens@.take(i as int), counted_if(active_human())),
            kind == CitizenKind::Householder ==> n == seq_sum(
                citizens@.take(i as int),
                counted_if(active_householder()),
            ),
        decreases citizens@.len() - i,
    {
        proof {
            lemma_sum_take_step(citizens@, counted_if(active_human()), i as int);
            lemma_sum_take_step(citizens@, counted_if(active_householder()), i as int);
        }
        let c = &citizens[i];
        if c.kind == kind && !c.dormant {
            n = n + 1;
        }
        i = i + 1;
    }
    proof {
        lemma_sum_take_all(citizens@, counted_if(active_human()));
        lemma_sum_take_all(citizens@, counted_if(active_householder()));
    }
    n
}

/// The householders to add.
fn fill_count_of(world: &World, epoch: Epoch) -> (n: u64)
    ensures
        n == fill_count(*world, epoch),
{
    let (humans, householders) = if epoch == 0 {
        (count_active(&world.citizens, CitizenKind::Human), count_active(&world.citizens, CitizenKind::Householder))
    } else {
        (0, 0)
    };
    let floor = world.params.population.floor as u64;
    let a = if floor >= humans {
        floor - humans
    } else {
        0
    };
    if a >= householders {
        a - householders
    } else {
        0
    }
}

/// The dwellings householders are housed in.
fn housing_count_of(world: &World, oc: u64, pc: u64) -> (n: u64)
    requires
        oc == owner_count(*world),
        pc == public_count(*world),
    ensures
        n == housing_count(*world),
        n <= world.params.initial_dwellings + pc,
{
    if society_stock_of(world).is_some() {
        if oc > 0 {
            world.params.initial_dwellings as u64 + pc
        } else {
            0
        }
    } else {
        pc
    }
}

/// The `j`th dwelling a householder is housed in.
fn housing_of(world: &World, j: u64, hc: u64, pc: u64) -> (d: DwellingId)
    requires
        j < hc,
        hc == housing_count(*world),
        pc == public_count(*world),
        world.next.dwelling.0 + world.params.initial_dwellings + pc <= u32::MAX,
    ensures
        d == housing(*world, j as int),
{
    if society_stock_of(world).is_some() {
        DwellingId((world.next.dwelling.0 as u64 + j) as u32)
    } else {
        DwellingId((world.next.dwelling.0 as u64 + world.params.initial_dwellings as u64 + j) as u32)
    }
}

/// The product of two `u32` fits in a `u64`.
proof fn lemma_u32_product(a: u32, b: u32)
    ensures
        a * b <= u64::MAX,
{
    assert(a * b <= 0xffff_ffffu64 * 0xffff_ffffu64) by (nonlinear_arith)
        requires
            a <= 0xffff_ffffu64,
            b <= 0xffff_ffffu64,
    ;
}

/// A pick is among the workplaces looked at, and can take a worker.
proof fn lemma_pick_open(p: Params, counts: Seq<u32>, n: int)
    ensures
        pick_upto(p, counts, n) matches Some(x) ==> 0 <= x < n && open_seat(p, counts, x),
    decreases n,
{
    if n > 0 {
        lemma_pick_open(p, counts, n - 1);
    }
}

/// The seeded workplace the balancing rule picks.
fn pick_seat(p: &Params, list: &Vec<(WorkplaceKind, u32)>, counts: &Vec<u32>) -> (b: Option<usize>)
    requires
        list@ == seats(*p),
        counts@.len() == list@.len(),
    ensures
        match b {
            Some(x) => pick(*p, counts@) == Some(x as int),
            None => pick(*p, counts@) is None,
        },
{
    let max = p.labor.max_workers_per_workplace;
    let mut best: Option<usize> = None;
    let mut x: usize = 0;
    while x < counts.len()
        invariant
            x <= counts@.len(),
            counts@.len() == list@.len(),
            list@ == seats(*p),
            max == p.labor.max_workers_per_workplace,
            match best {
                Some(b) => b < x && pick_upto(*p, counts@, x as int) == Some(b as int),
                None => pick_upto(*p, counts@, x as int) is None,
            },
        decreases counts@.len() - x,
    {
        let wx = p.labor.balance_weights.get(list[x].0);
        let cx = counts[x];
        if cx < max && wx > 0 {
            match best {
                None => {
                    best = Some(x);
                },
                Some(b) => {
                    let wb = p.labor.balance_weights.get(list[b].0);
                    let cb = counts[b];
                    proof {
                        lemma_u32_product(cx, wb);
                        lemma_u32_product(cb, wx);
                    }
                    if (cx as u64) * (wb as u64) < (cb as u64) * (wx as u64) {
                        best = Some(x);
                    }
                },
            }
        }
        x = x + 1;
    }
    best
}

/// What the first `fill` householders' joining emits.
fn householder_events(world: &World, epoch: Epoch, list: &Vec<(WorkplaceKind, u32)>, fill: u64, hc: u64, pc: u64) -> (r: Vec<Event>)
    requires
        list@ == seats(world.params),
        fill == fill_count(*world, epoch),
        hc == housing_count(*world),
        pc == public_count(*world),
        world.next.citizen.0 + fill <= u32::MAX,
        world.next.workplace.0 + seat_count(*world) <= u32::MAX,
        world.next.dwelling.0 + world.params.initial_dwellings + pc <= u32::MAX,
    ensures
        describes(r@, householders_plan(*world, fill as int)),
{
    let assigned = world.constitution.labor == LaborMode::Assigned;
    let money = world.constitution.has_money();
    let endowment = if money {
        world.params.money.endowment
    } else {
        Money(0)
    };
    let mut counts: Vec<u32> = Vec::new();
    while counts.len() < list.len()
        invariant
            counts@.len() <= list@.len(),
            forall|x: int| 0 <= x < counts@.len() ==> counts@[x] == 0,
        decreases list@.len() - counts@.len(),
    {
        counts.push(0);
    }
    proof {
        assert(counts@ =~= counts_after(*world, 0));
    }
    let mut r: Vec<Event> = Vec::new();
    let mut j: u64 = 0;
    while j < fill
        invariant
            j <= fill,
            list@ == seats(world.params),
            fill == fill_count(*world, epoch),
            hc == housing_count(*world),
            pc == public_count(*world),
            world.next.citizen.0 + fill <= u32::MAX,
            world.next.workplace.0 + seat_count(*world) <= u32::MAX,
            world.next.dwelling.0 + world.params.initial_dwellings + pc <= u32::MAX,
            assigned == assigns(*world),
            endowment == (if world.constitution.spec_has_money() {
                world.params.money.endowment
            } else {
                Money(0)
            }),
            counts@ == counts_after(*world, j as int),
            counts@.len() == list@.len(),
            describes(r@, householders_plan(*world, j as int)),
        decreases fill - j,
    {
        let citizen = CitizenId((world.next.citizen.0 as u64 + j) as u32);
        let dwelling = if j < hc {
            Some(housing_of(world, j, hc, pc))
        } else {
            None
        };
        let ghost prev = r@;
        let ghost step = householder_step(*world, j as int);
        r.push(Event::HouseholderJoined { citizen, handle: handle_text(citizen), endowment, dwelling });
        proof {
            assert(described(r@[prev.len() as int], step[0]));
        }
        if assigned {
            let picked = pick_seat(&world.params, list, &counts);
            match picked {
                Some(x) => {
                    proof {
                        lemma_pick_open(world.params, counts@, counts@.len() as int);
                    }
                    let workplace = WorkplaceId((world.next.workplace.0 as u64 + x as u64) as u32);
                    r.push(Event::Assigned { workplace, citizen, contract: None });
                    proof {
                        assert(described(r@[prev.len() + 1int], step[1]));
                    }
                    let cx = counts[x];
                    counts.set(x, cx + 1);
                },
                None => {},
            }
        }
        proof {
            assert(r@ =~= prev + r@.subrange(prev.len() as int, r@.len() as int));
            assert(describes(r@.subrange(prev.len() as int, r@.len() as int), step));
            lemma_describes_append(prev, householders_plan(*world, j as int), r@.subrange(prev.len() as int, r@.len() as int), step);
            assert(counts@ =~= counts_after(*world, j + 1));
        }
        j = j + 1;
    }
    r
}

/// The active householders, in order.
fn active_householder_ids(citizens: &Vec<Citizen>) -> (r: Vec<CitizenId>)
    ensures
        r@ == active_householders(citizens@),
{
    let mut r: Vec<CitizenId> = Vec::new();
    let mut i: usize = 0;
    while i < citizens.len()
        invariant
            i <= citizens@.len(),
            r@ == active_householders(citizens@.take(i as int)),
        decreases citizens@.len() - i,
    {
        proof {
            assert(citizens@.take(i + 1).drop_last() =~= citizens@.take(i as int));
        }
        let c = &citizens[i];
        if c.kind == CitizenKind::Householder && !c.dormant {
            r.push(c.id);
        }
        i = i + 1;
    }
    proof {
        assert(citizens@.take(citizens@.len() as int) =~= citizens@);
    }
    r
}

/// The householders managers are drawn from.
fn manager_pool_of(world: &World, epoch: Epoch, fill: u64) -> (r: Vec<CitizenId>)
    requires
        fill == fill_count(*world, epoch),
        world.next.citizen.0 + fill <= u32::MAX,
    ensures
        r@ == manager_pool(*world, epoch),
{
    let mut r = if epoch == 0 {
        active_householder_ids(&world.citizens)
    } else {
        Vec::new()
    };
    let ghost first = r@;
    let mut j: u64 = 0;
    while j < fill
        invariant
            j <= fill,
            world.next.citizen.0 + fill <= u32::MAX,
            r@ == first + Seq::new(j as nat, |k: int| new_householder(*world, k)),
        decreases fill - j,
    {
        r.push(CitizenId((world.next.citizen.0 as u64 + j) as u32));
        proof {
            assert(r@ =~= first + Seq::new((j + 1) as nat, |k: int| new_householder(*world, k)));
        }
        j = j + 1;
    }
    proof {
        assert(first =~= (if epoch == 0 {
            active_householders(world.citizens@)
        } else {
            Seq::empty()
        }));
    }
    r
}

/// What appointing the seeded orgs' managers emits.
fn manager_events(world: &World, epoch: Epoch, sc: u64, fill: u64) -> (r: Vec<Event>)
    requires
        sc == seat_count(*world),
        fill == fill_count(*world, epoch),
        world.next.citizen.0 + fill <= u32::MAX,
        world.next.org.0 + sc <= u32::MAX,
        world.next.workplace.0 + sc <= u32::MAX,
    ensures
        describes(r@, managers_plan(*world, epoch, sc as int)),
{
    let pool = manager_pool_of(world, epoch, fill);
    let cooperative = matches!(seeded_org_kind(world), OrgKind::Cooperative);
    let mut r: Vec<Event> = Vec::new();
    if pool.len() > 0 {
        let mut i: u64 = 0;
        while i < sc
            invariant
                i <= sc,
                sc == seat_count(*world),
                pool@ == manager_pool(*world, epoch),
                pool@.len() > 0,
                cooperative == (spec_seeded_org_kind(*world) == OrgKind::Cooperative),
                world.next.org.0 + sc <= u32::MAX,
                world.next.workplace.0 + sc <= u32::MAX,
                describes(r@, managers_plan(*world, epoch, i as int)),
            decreases sc - i,
        {
            let m = pool[(i % pool.len() as u64) as usize];
            let org = OrgId((world.next.org.0 as u64 + i) as u32);
            let ghost prev = r@;
            let ghost step = manager_step(*world, epoch, i as int);
            r.push(Event::ManagerAppointed { org, citizen: Some(m) });
            proof {
                assert(described(r@[prev.len() as int], step[0]));
            }
            if cooperative {
                let workplace = WorkplaceId((world.next.workplace.0 as u64 + i) as u32);
                r.push(Event::MemberAdmitted { org, citizen: m });
                r.push(Event::Assigned { workplace, citizen: m, contract: None });
                proof {
                    assert(described(r@[prev.len() + 1int], step[1]));
                    assert(described(r@[prev.len() + 2int], step[2]));
                }
            }
            proof {
                assert(r@ =~= prev + r@.subrange(prev.len() as int, r@.len() as int));
                lemma_describes_append(prev, managers_plan(*world, epoch, i as int), r@.subrange(prev.len() as int, r@.len() as int), step);
            }
            i = i + 1;
        }
    }
    r
}

/// Start an epoch: the epoch, then a legacy org per seeded workplace (with
/// its treasury where money exists and its opening stock), the first
/// dwellings (owned round robin by the Builders, or the first org where
/// there are none), the public dwellings a policy asks for, householders up
/// to the population floor (housed and assigned where the system does so),
/// and a householder manager for each legacy org.
pub fn start_epoch(world: &World, epoch: Epoch) -> (v: Vec<Event>)
    requires
        seedable(*world, epoch),
    ensures
        describes(v@, spec_start_epoch(*world, epoch)),
{
    let list = seat_list(&world.params);
    let sc = list.len() as u64;
    let mut v: Vec<Event> = Vec::new();
    v.push(Event::EpochStarted { epoch });
    let ghost p0 = seq![Planned::EpochStarted { epoch }];
    proof {
        assert(described(v@[0], p0[0]));
    }
    extend(&mut v, legacy_events(world, &list), Ghost(p0), Ghost(legacy_plan(*world, seat_count(*world))));
    let ghost p1 = p0 + legacy_plan(*world, seat_count(*world));
    extend(&mut v, dwelling_events(world, sc), Ghost(p1), Ghost(dwellings_plan(*world)));
    let ghost p2 = p1 + dwellings_plan(*world);
    let oc = owner_count_of(world, sc);
    let pc = public_count_of(world, oc);
    extend(&mut v, public_events(world, sc, pc), Ghost(p2), Ghost(public_plan(*world, public_count(*world))));
    let ghost p3 = p2 + public_plan(*world, public_count(*world));
    let fill = fill_count_of(world, epoch);
    let hc = housing_count_of(world, oc, pc);
    extend(&mut v, householder_events(world, epoch, &list, fill, hc, pc), Ghost(p3), Ghost(householders_plan(*world, fill as int)));
    let ghost p4 = p3 + householders_plan(*world, fill as int);
    extend(&mut v, manager_events(world, epoch, sc, fill), Ghost(p4), Ghost(managers_plan(*world, epoch, seat_count(*world))));
    v
}

} // verus!
