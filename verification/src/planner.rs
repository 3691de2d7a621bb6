//! The scripted assembly of a headless society: who it is, who shows up,
//! and who leads the Ledger of Contribution.
use crate::ids::{CitizenId, Tick};
use crate::kinds::CitizenKind;
use crate::world::{Citizen, World};
use vstd::prelude::*;

verus! {

/// The three Materials sinks the split feeds.
#[derive(Clone, Copy, Debug, PartialEq, Eq, Structural)]
pub enum Sink {
    Wares,
    Machines,
    Dwellings,
}

/// The ids of the humans among `s`, in order.
pub open spec fn humans(s: Seq<Citizen>) -> Seq<CitizenId>
    decreases s.len(),
{
    if s.len() == 0 {
        Seq::empty()
    } else if s.last().kind == CitizenKind::Human {
        humans(s.drop_last()).push(s.last().id)
    } else {
        humans(s.drop_last())
    }
}

/// The scripted humans: every human on the rolls, in id order.
pub fn assembly(world: &World) -> (v: Vec<CitizenId>)
    ensures
        v@ == humans(world.citizens@),
{
    let cs = &world.citizens;
    let mut v: Vec<CitizenId> = Vec::new();
    let mut k: usize = 0;
    while k < cs.len()
        invariant
            k <= cs@.len(),
            v@ == humans(cs@.take(k as int)),
        decreases cs@.len() - k,
    {
        proof {
            assert(cs@.take(k + 1).drop_last() =~= cs@.take(k as int));
        }
        if cs[k].kind == CitizenKind::Human {
            v.push(cs[k].id);
        }
        k = k + 1;
    }
    proof {
        assert(cs@.take(cs@.len() as int) =~= cs@);
    }
    v
}

/// The ids of the humans among `s` who show up at `tick`: all of them on a
/// cycle's first tick, else the dormant ones.
pub open spec fn present(s: Seq<Citizen>, first_tick: bool) -> Seq<CitizenId>
    decreases s.len(),
{
    if s.len() == 0 {
        Seq::empty()
    } else if s.last().kind == CitizenKind::Human && (first_tick || s.last().dormant) {
        present(s.drop_last(), first_tick).push(s.last().id)
    } else {
        present(s.drop_last(), first_tick)
    }
}

/// The humans who send `Seen` this tick: every human on the first tick of a
/// cycle, and any dormant human at once.
pub fn decide_presence(world: &World, tick: Tick) -> (v: Vec<CitizenId>)
    requires
        world.params.time.ticks_per_cycle > 0,
    ensures
        v@ == present(world.citizens@, tick % world.params.time.ticks_per_cycle == 0),
{
    let first_tick = tick % world.params.time.ticks_per_cycle == 0;
    let cs = &world.citizens;
    let mut v: Vec<CitizenId> = Vec::new();
    let mut k: usize = 0;
    while k < cs.len()
        invariant
            k <= cs@.len(),
            v@ == present(cs@.take(k as int), first_tick),
        decreases cs@.len() - k,
    {
        proof {
            assert(cs@.take(k + 1).drop_last() =~= cs@.take(k as int));
        }
        if cs[k].kind == CitizenKind::Human && (first_tick || cs[k].dormant) {
            v.push(cs[k].id);
        }
        k = k + 1;
    }
    proof {
        assert(cs@.take(cs@.len() as int) =~= cs@);
    }
    v
}

/// Whether `a` ranks above `b` on the Ledger of Contribution: more hours, the
/// lower id on a tie.
pub open spec fn ranks_above(a: Citizen, b: Citizen) -> bool {
    a.contribution.tick_hours_total > b.contribution.tick_hours_total || (a.contribution.tick_hours_total
        == b.contribution.tick_hours_total && a.id.0 <= b.id.0)
}

/// The citizen with the most hours on the Ledger of Contribution, the lower
/// id on a tie; none before anyone has worked.
pub fn top_contributor(world: &World) -> (r: Option<CitizenId>)
    ensures
        r is None <==> forall|i: int|
            0 <= i < world.citizens@.len() ==> (#[trigger] world.citizens@[i]).contribution.tick_hours_total == 0,
        r matches Some(id) ==> exists|i: int|
            0 <= i < world.citizens@.len() && (#[trigger] world.citizens@[i]).id == id
                && world.citizens@[i].contribution.tick_hours_total > 0 && forall|j: int|
                0 <= j < world.citizens@.len() && world.citizens@[j].contribution.tick_hours_total > 0 ==> ranks_above(
                    world.citizens@[i],
                    world.citizens@[j],
                ),
{
    let cs = &world.citizens;
    let mut best: Option<usize> = None;
    let mut k: usize = 0;
    while k < cs.len()
        invariant
            k <= cs@.len(),
            cs@ == world.citizens@,
            best is None ==> forall|j: int| 0 <= j < k ==> (#[trigger] cs@[j]).contribution.tick_hours_total == 0,
            best matches Some(b) ==> b < k && cs@[b as int].contribution.tick_hours_total > 0 && forall|j: int|
                0 <= j < k && (#[trigger] cs@[j]).contribution.tick_hours_total > 0 ==> ranks_above(cs@[b as int], cs@[j]),
        decreases cs@.len() - k,
    {
        let h = cs[k].contribution.tick_hours_total;
        if h > 0 {
            match best {
                None => {
                    best = Some(k);
                },
                Some(b) => {
                    let bh = cs[b].contribution.tick_hours_total;
                    if h > bh || (h == bh && cs[k].id.0 < cs[b].id.0) {
                        best = Some(k);
                    }
                },
            }
        }
        k = k + 1;
    }
    match best {
        Some(b) => {
            assert(world.citizens@[b as int].id == cs[b as int].id);
            Some(cs[b].id)
        },
        None => None,
    }
}

} // verus!
