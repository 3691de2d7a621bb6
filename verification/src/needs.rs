//! Needs: the effort that drives a citizen's hunger.
use crate::apply::{applied, citizen_changed, flags_set, with_flags};
use crate::event::Event;
use crate::ids::Cycle;
use crate::kinds::Effort;
use crate::params::Params;
use crate::table::{find, lemma_find_unique, lemma_update_keeps_ids};
use crate::tick::TickBuilder;
use crate::world::{Allocation, Citizen, CitizenFlags, LaborState, Needs, World};
use vstd::prelude::*;

verus! {

/// The highest effort among allocations with hours, or `Normal` when idle.
pub open spec fn effort_over(s: Seq<Allocation>) -> Option<Effort>
    decreases s.len(),
{
    if s.len() == 0 {
        None
    } else {
        let rest = effort_over(s.drop_last());
        let a = s.last();
        if a.hours == 0 {
            rest
        } else {
            match rest {
                Some(e) => if a.effort.spec_rank() > e.spec_rank() {
                    Some(a.effort)
                } else {
                    Some(e)
                },
                None => Some(a.effort),
            }
        }
    }
}

/// The effort that scales Food decay this tick: the highest effort among
/// allocations with hours, `Normal` when idle.
pub open spec fn spec_effort_for_decay(c: Citizen) -> Effort {
    match effort_over(c.labor.allocations@) {
        Some(e) => e,
        None => Effort::Normal,
    }
}

/// The effort that scales Food decay this tick.
pub fn effort_for_decay(citizen: &Citizen) -> (e: Effort)
    ensures
        e == spec_effort_for_decay(*citizen),
{
    let allocs = &citizen.labor.allocations;
    let mut best: Option<Effort> = None;
    let mut k: usize = 0;
    while k < allocs.len()
        invariant
            k <= allocs@.len(),
            best == effort_over(allocs@.take(k as int)),
        decreases allocs@.len() - k,
    {
        proof {
            assert(allocs@.take(k + 1).drop_last() =~= allocs@.take(k as int));
        }
        let a = allocs[k];
        if a.hours > 0 {
            best = match best {
                Some(e) => if rank(a.effort) > rank(e) {
                    Some(a.effort)
                } else {
                    Some(e)
                },
                None => Some(a.effort),
            };
        }
        k = k + 1;
    }
    proof {
        assert(allocs@.take(allocs@.len() as int) =~= allocs@);
    }
    match best {
        Some(e) => e,
        None => Effort::Normal,
    }
}

/// An effort's rank.
fn rank(e: Effort) -> (r: u8)
    ensures
        r == e.spec_rank(),
{
    match e {
        Effort::Low => 0,
        Effort::Normal => 1,
        Effort::High => 2,
    }
}

/// A cycle's ticks, as the hardship count reads them (at most 255).
pub open spec fn cycle_ticks(p: Params) -> int {
    if p.time.ticks_per_cycle > 255 {
        255
    } else {
        p.time.ticks_per_cycle as int
    }
}

/// Whether a citizen was low on food every tick of the cycle.
pub open spec fn hardship_now(c: Citizen, p: Params) -> bool {
    c.needs.low_food_ticks_this_cycle >= cycle_ticks(p)
}

/// Cycles of hardship in a row, this one counted.
pub open spec fn hardship_run(c: Citizen, p: Params) -> int {
    if hardship_now(c, p) {
        c.needs.consecutive_hardship_cycles + 1
    } else {
        0
    }
}

/// Whether the hardship has lasted long enough to make the citizen destitute.
pub open spec fn destitute_now(c: Citizen, p: Params) -> bool {
    hardship_run(c, p) >= p.needs.destitution_hardship_cycles
}

/// Fatigue hours from high effort: owed once it has lasted too many cycles.
pub open spec fn effort_debt(c: Citizen, p: Params) -> int {
    if c.labor.consecutive_high_effort_cycles > p.labor.high_effort_debt_after_cycles {
        p.labor.high_effort_debt_hours as int
    } else {
        0
    }
}

/// Fatigue hours from hardship.
pub open spec fn hardship_debt(c: Citizen, p: Params) -> int {
    if hardship_now(c, p) {
        p.labor.hardship_debt_hours as int
    } else {
        0
    }
}

/// Next cycle's fatigue debt: both debts, capped.
pub open spec fn fatigue_debt_of(c: Citizen, p: Params) -> int {
    let d = effort_debt(c, p) + hardship_debt(c, p);
    if d < p.labor.fatigue_debt_cap_hours {
        d
    } else {
        p.labor.fatigue_debt_cap_hours as int
    }
}

/// Next cycle's hour budget: the base budget less the debt, never below zero.
pub open spec fn budget_of(c: Citizen, p: Params) -> int {
    if p.labor.base_budget_hours >= fatigue_debt_of(c, p) {
        p.labor.base_budget_hours - fatigue_debt_of(c, p)
    } else {
        0
    }
}

/// An active citizen once the cycle's hardship is reckoned: the low-food
/// count cleared, the hardship run and fatigue carried forward, and the
/// hardship and destitution flags as they now stand (options narrowed with
/// destitution where it changes). A dormant citizen stays as they are.
pub open spec fn reckoned(c: Citizen, p: Params) -> Citizen {
    if c.dormant {
        c
    } else {
        let dest = destitute_now(c, p);
        Citizen {
            needs: Needs { low_food_ticks_this_cycle: 0, consecutive_hardship_cycles: hardship_run(c, p) as u32, ..c.needs },
            labor: LaborState { fatigue_debt: fatigue_debt_of(c, p) as u8, budget: budget_of(c, p) as u8, ..c.labor },
            flags: CitizenFlags {
                in_hardship: hardship_now(c, p),
                destitute: dest,
                options_narrowed: if dest != c.flags.destitute {
                    dest
                } else {
                    c.flags.options_narrowed
                },
                ..c.flags
            },
            ..c
        }
    }
}

/// What reckoning an active citizen's hardship emits: hardship beginning or
/// ending, then destitution beginning or ending, where they change.
pub open spec fn hardship_events_of(c: Citizen, p: Params, cycle: Cycle) -> Seq<Event> {
    if c.dormant {
        Seq::empty()
    } else {
        let h = hardship_now(c, p);
        let d = destitute_now(c, p);
        (if h && !c.flags.in_hardship {
            seq![Event::HardshipBegan { citizen: c.id, cycle }]
        } else if !h && c.flags.in_hardship {
            seq![Event::HardshipEnded { citizen: c.id, cycle }]
        } else {
            Seq::empty()
        }) + (if d && !c.flags.destitute {
            seq![Event::DestitutionBegan { citizen: c.id, cycle }]
        } else if !d && c.flags.destitute {
            seq![Event::DestitutionEnded { citizen: c.id, cycle }]
        } else {
            Seq::empty()
        })
    }
}

/// What reckoning every citizen's hardship emits, in citizen order.
pub open spec fn hardship_events(cs: Seq<Citizen>, p: Params, cycle: Cycle) -> Seq<Event>
    decreases cs.len(),
{
    if cs.len() == 0 {
        Seq::empty()
    } else {
        hardship_events(cs.drop_last(), p, cycle) + hardship_events_of(cs.last(), p, cycle)
    }
}

/// Whether the reckoning stays in range: no active citizen's hardship run
/// is at the largest count, and no one's two debts together pass 255 hours.
pub open spec fn hardship_reckonable(w: World) -> bool {
    forall|i: int|
        0 <= i < w.citizens@.len() && !(#[trigger] w.citizens@[i]).dormant ==> {
            &&& w.citizens@[i].needs.consecutive_hardship_cycles < u32::MAX
            &&& effort_debt(w.citizens@[i], w.params) + hardship_debt(w.citizens@[i], w.params) <= 255
        }
}

/// Emit a flag event for the citizen at `k`, whose row it changes.
fn emit_flag(b: &mut TickBuilder, k: usize, e: Event, Ghost(hardship): Ghost<Option<bool>>, Ghost(destitute): Ghost<Option<bool>>)
    requires
        old(b).world.wf(),
        k < old(b).world.citizens@.len(),
        match e {
            Event::HardshipBegan { citizen, .. } => citizen == old(b).world.citizens@[k as int].id && hardship == Some(true)
                && destitute is None,
            Event::HardshipEnded { citizen, .. } => citizen == old(b).world.citizens@[k as int].id && hardship == Some(false)
                && destitute is None,
            Event::DestitutionBegan { citizen, .. } => citizen == old(b).world.citizens@[k as int].id && hardship is None
                && destitute == Some(true),
            Event::DestitutionEnded { citizen, .. } => citizen == old(b).world.citizens@[k as int].id && hardship is None
                && destitute == Some(false),
            _ => false,
        },
    ensures
        final(b).world.wf(),
        final(b).world == (World { citizens: final(b).world.citizens, ..old(b).world }),
        final(b).world.citizens@ == old(b).world.citizens@.update(
            k as int,
            with_flags(old(b).world.citizens@[k as int], flags_set(old(b).world.citizens@[k as int].flags, hardship, destitute)),
        ),
        final(b).events@ == old(b).events@.push(e),
        final(b).tick == old(b).tick,
        final(b).cycle == old(b).cycle,
{
    proof {
        lemma_find_unique(b.world.citizens@, k as int);
    }
    b.emit(e);
}

/// Reckon the hardship of the citizen at `k`.
#[verifier::rlimit(60)]
#[verifier::spinoff_prover]
fn reckon_one(b: &mut TickBuilder, k: usize)
    requires
        old(b).world.wf(),
        k < old(b).world.citizens@.len(),
        !old(b).world.citizens@[k as int].dormant,
        old(b).world.citizens@[k as int].needs.consecutive_hardship_cycles < u32::MAX,
        effort_debt(old(b).world.citizens@[k as int], old(b).world.params) + hardship_debt(
            old(b).world.citizens@[k as int],
            old(b).world.params,
        ) <= 255,
    ensures
        final(b).world.wf(),
        final(b).world == (World { citizens: final(b).world.citizens, ..old(b).world }),
        final(b).world.citizens@ == old(b).world.citizens@.update(
            k as int,
            reckoned(old(b).world.citizens@[k as int], old(b).world.params),
        ),
        final(b).events@ == old(b).events@ + hardship_events_of(
            old(b).world.citizens@[k as int],
            old(b).world.params,
            old(b).cycle,
        ),
        final(b).tick == old(b).tick,
        final(b).cycle == old(b).cycle,
{
    let ghost c0 = b.world.citizens@[k as int];
    let ghost p = b.world.params;
    let tpc = b.world.params.time.ticks_per_cycle;
    let ticks: u8 = if tpc > 255 {
        255
    } else {
        tpc as u8
    };
    let mut c = b.world.citizens.remove(k);
    let id = c.id;
    let in_hardship = c.needs.low_food_ticks_this_cycle >= ticks;
    c.needs.low_food_ticks_this_cycle = 0;
    if in_hardship {
        c.needs.consecutive_hardship_cycles = c.needs.consecutive_hardship_cycles + 1;
    } else {
        c.needs.consecutive_hardship_cycles = 0;
    }
    let destitute = c.needs.consecutive_hardship_cycles >= b.world.params.needs.destitution_hardship_cycles as u32;
    let high_effort_debt = if c.labor.consecutive_high_effort_cycles > b.world.params.labor.high_effort_debt_after_cycles {
        b.world.params.labor.high_effort_debt_hours
    } else {
        0
    };
    let hardship_debt_hours = if in_hardship {
        b.world.params.labor.hardship_debt_hours
    } else {
        0
    };
    let sum = high_effort_debt + hardship_debt_hours;
    let cap = b.world.params.labor.fatigue_debt_cap_hours;
    let debt = if sum < cap {
        sum
    } else {
        cap
    };
    c.labor.fatigue_debt = debt;
    let base = b.world.params.labor.base_budget_hours;
    c.labor.budget = if base >= debt {
        base - debt
    } else {
        0
    };
    let was_hardship = c.flags.in_hardship;
    let was_destitute = c.flags.destitute;
    b.world.citizens.insert(k, c);
    proof {
        lemma_update_keeps_ids(old(b).world.citizens@, k as int, b.world.citizens@[k as int]);
        assert(b.world.citizens@ =~= old(b).world.citizens@.update(k as int, b.world.citizens@[k as int]));
    }
    let ghost mid = b.world.citizens@[k as int];
    let ghost events0 = b.events@;
    let cycle = b.cycle;
    if in_hardship && !was_hardship {
        emit_flag(b, k, Event::HardshipBegan { citizen: id, cycle }, Ghost(Some(true)), Ghost(None));
    } else if !in_hardship && was_hardship {
        emit_flag(b, k, Event::HardshipEnded { citizen: id, cycle }, Ghost(Some(false)), Ghost(None));
    }
    let ghost events1 = b.events@;
    if destitute && !was_destitute {
        emit_flag(b, k, Event::DestitutionBegan { citizen: id, cycle }, Ghost(None), Ghost(Some(true)));
    } else if !destitute && was_destitute {
        emit_flag(b, k, Event::DestitutionEnded { citizen: id, cycle }, Ghost(None), Ghost(Some(false)));
    }
    proof {
        let r = reckoned(c0, p);
        assert(b.world.citizens@[k as int] == r);
        assert(b.world.citizens@ =~= old(b).world.citizens@.update(k as int, r));
        assert(b.events@ =~= old(b).events@ + hardship_events_of(c0, p, old(b).cycle));
    }
}

/// Step 8h: for each active citizen, hardship is a cycle spent low on food
/// every tick; hardship cycles in a row make a citizen destitute; fatigue
/// debt from long high effort and from hardship comes off next cycle's
/// hours; the hardship and destitution flags change by event.
pub fn cycle_end_8h_hardship_and_fatigue(b: &mut TickBuilder)
    requires
        old(b).world.wf(),
        hardship_reckonable(old(b).world),
    ensures
        final(b).world.wf(),
        final(b).world == (World { citizens: final(b).world.citizens, ..old(b).world }),
        final(b).world.citizens@ == old(b).world.citizens@.map_values(|c: Citizen| reckoned(c, old(b).world.params)),
        final(b).events@ == old(b).events@ + hardship_events(old(b).world.citizens@, old(b).world.params, old(b).cycle),
        final(b).tick == old(b).tick,
        final(b).cycle == old(b).cycle,
{
    let ghost o = b.world;
    let ghost es = b.events@;
    let ghost p = b.world.params;
    let n = b.world.citizens.len();
    let mut k: usize = 0;
    while k < n
        invariant
            k <= n,
            n == o.citizens@.len(),
            b.world.wf(),
            b.world == (World { citizens: b.world.citizens, ..o }),
            b.world.citizens@.len() == n,
            forall|j: int| 0 <= j < k ==> b.world.citizens@[j] == reckoned(#[trigger] o.citizens@[j], p),
            forall|j: int| k <= j < n ==> #[trigger] b.world.citizens@[j] == o.citizens@[j],
            b.events@ == es + hardship_events(o.citizens@.take(k as int), p, old(b).cycle),
            b.tick == old(b).tick,
            b.cycle == old(b).cycle,
            p == o.params,
            hardship_reckonable(o),
        decreases n - k,
    {
        proof {
            assert(o.citizens@.take(k + 1).drop_last() =~= o.citizens@.take(k as int));
            assert(o.citizens@.take(k + 1).last() == o.citizens@[k as int]);
        }
        if b.world.citizens[k].dormant {
            proof {
                assert(hardship_events(o.citizens@.take(k + 1), p, old(b).cycle) =~= hardship_events(o.citizens@.take(k as int), p, old(b).cycle));
            }
        } else {
            let ghost before = b.world.citizens@;
            let ghost ev = b.events@;
            reckon_one(b, k);
            proof {
                assert(b.events@ =~= es + hardship_events(o.citizens@.take(k + 1), p, old(b).cycle));
            }
        }
        k = k + 1;
    }
    proof {
        assert(o.citizens@.take(n as int) =~= o.citizens@);
        assert(b.world.citizens@ =~= o.citizens@.map_values(|c: Citizen| reckoned(c, p)));
    }
}

impl Needs {
    /// A fresh citizen's meters: each at the starting level, in tenths, with
    /// no low-food ticks and no hardship behind them.
    pub fn at_start(params: &Params) -> (n: Needs)
        ensures
            n.food == params.needs.meter_start * 10,
            n.shelter == params.needs.meter_start * 10,
            n.comfort == params.needs.meter_start * 10,
            n.low_food_ticks_this_cycle == 0,
            n.consecutive_hardship_cycles == 0,
    {
        let start = params.needs.meter_start as u16 * 10;
        Needs { food: start, shelter: start, comfort: start, low_food_ticks_this_cycle: 0, consecutive_hardship_cycles: 0 }
    }
}

} // verus!
