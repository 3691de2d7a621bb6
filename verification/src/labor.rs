//! Labor: how a citizen spreads this cycle's hours over the workplaces where
//! they hold a position.
use crate::command::{acting_citizen, spec_acting_citizen, Envelope, Reject, RejectCode};
use crate::coop::worker_is;
use crate::event::{Actor, Event};
use crate::ids::CitizenId;
use crate::message::{put, put_citizen, put_num, put_workplace, say};
use crate::sum::{lemma_sum_take_all, lemma_sum_take_step, seq_sum};
use crate::table::{find, first, index_of, lemma_first};
use crate::world::{Allocation, Assignment, ContractBody, World, Worker};
use vstd::prelude::*;

verus! {

/// What is wrong with allocation `j`, if anything: a workplace named twice,
/// an unknown workplace, no position there, or more hours than the
/// position's employment contract allows.
pub open spec fn allocation_fault(w: World, c: CitizenId, al: Seq<Allocation>, j: int) -> Option<RejectCode> {
    let a = al[j];
    if exists|k: int| 0 <= k < j && (#[trigger] al[k]).workplace == a.workplace {
        Some(RejectCode::InvalidQuantity)
    } else {
        match find(w.workplaces@, a.workplace.0) {
            None => Some(RejectCode::UnknownWorkplace),
            Some(wi) => match first(w.workplaces@[wi].workers@, worker_is(c)) {
                None => Some(RejectCode::NotAssigned),
                Some(x) => match w.workplaces@[wi].workers@[x].assignment.contract {
                    Some(kid) => match find(w.contracts@, kid.0) {
                        Some(ki) => match w.contracts@[ki].body {
                            ContractBody::Employment { max_hours, .. } => if a.hours > max_hours {
                                Some(RejectCode::OverContractHours)
                            } else {
                                None
                            },
                            _ => None,
                        },
                        None => None,
                    },
                    None => None,
                },
            },
        }
    }
}

/// The fault of the first of the first `n` allocations that has one.
pub open spec fn first_fault(w: World, c: CitizenId, al: Seq<Allocation>, n: int) -> Option<RejectCode>
    decreases n,
{
    if n <= 0 {
        None
    } else {
        match first_fault(w, c, al, n - 1) {
            Some(f) => Some(f),
            None => allocation_fault(w, c, al, n - 1),
        }
    }
}

/// Once a fault is found, it stays the first.
proof fn lemma_first_fault_sticks(w: World, c: CitizenId, al: Seq<Allocation>, m: int, n: int)
    requires
        0 <= m <= n,
        first_fault(w, c, al, m) is Some,
    ensures
        first_fault(w, c, al, n) == first_fault(w, c, al, m),
    decreases n - m,
{
    if m < n {
        lemma_first_fault_sticks(w, c, al, m, n - 1);
    }
}

/// An allocation's hours, as a summand.
pub open spec fn hours_of() -> spec_fn(Allocation) -> int {
    |a: Allocation| a.hours as int
}

/// What `SetLabor` answers: the citizen's new allocations, where there are
/// no more of them than workplaces one may hold, each names a workplace once
/// where the citizen holds a position and within its contract's hours, and
/// the hours fit this cycle's budget.
pub open spec fn spec_set_labor(w: World, actor: Actor, al: Seq<Allocation>) -> Result<CitizenId, RejectCode> {
    match spec_acting_citizen(w, actor) {
        Err(e) => Err(e),
        Ok(ci) => {
            let c = w.citizens@[ci];
            if al.len() > w.params.labor.max_workplaces {
                Err(RejectCode::TooManyWorkplaces)
            } else {
                match first_fault(w, c.id, al, al.len() as int) {
                    Some(f) => Err(f),
                    None => if seq_sum(al, hours_of()) > c.labor.budget {
                        Err(RejectCode::OverBudget)
                    } else {
                        Ok(c.id)
                    },
                }
            }
        },
    }
}

/// The citizen's position on a worker list, where they hold one.
fn position_on(ws: &Vec<Worker>, m: CitizenId) -> (r: Option<Assignment>)
    ensures
        r == match first(ws@, worker_is(m)) {
            Some(k) => Some(ws@[k].assignment),
            None => None::<Assignment>,
        },
{
    let mut k: usize = 0;
    while k < ws.len()
        invariant
            k <= ws@.len(),
            forall|j: int| 0 <= j < k ==> !(worker_is(m))(#[trigger] ws@[j]),
        decreases ws@.len() - k,
    {
        if ws[k].citizen == m {
            proof {
                assert((worker_is(m))(ws@[k as int]));
                lemma_first(ws@, worker_is(m));
                let j = first(ws@, worker_is(m))->0;
                if j < k {
                    assert(!(worker_is(m))(ws@[j]));
                }
            }
            return Some(ws[k].assignment);
        }
        k = k + 1;
    }
    proof {
        lemma_first(ws@, worker_is(m));
    }
    None
}

/// `SetLabor`: a citizen spreads this cycle's hours over their positions.
pub fn set_labor<C>(world: &World, envelope: &Envelope<C>, allocations: &Vec<Allocation>) -> (r: Result<Vec<Event>, Reject>)
    ensures
        match (r, spec_set_labor(*world, envelope.actor, allocations@)) {
            (Ok(v), Ok(id)) => v@.len() == 1 && (v@[0] matches Event::LaborSet { citizen, allocations: a } && citizen
                == id && a@ == allocations@),
            (Err(e), Err(code)) => e.code == code,
            _ => false,
        },
{
    let citizen = acting_citizen(world, envelope)?;
    let me = citizen.id;
    let ghost al = allocations@;
    let ghost ci = spec_acting_citizen(*world, envelope.actor)->Ok_0;
    let max = world.params.labor.max_workplaces;
    if allocations.len() > max as usize {
        let mut m = say("at most ");
        put_num(&mut m, max as u64);
        put(&mut m, " workplaces");
        return Err(Reject::new(RejectCode::TooManyWorkplaces, m));
    }
    let mut j: usize = 0;
    while j < allocations.len()
        invariant
            j <= al.len(),
            al == allocations@,
            first_fault(*world, me, al, j as int) is None,
            spec_acting_citizen(*world, envelope.actor) == Ok::<int, RejectCode>(ci),
            world.citizens@[ci].id == me,
            al.len() <= world.params.labor.max_workplaces,
        decreases al.len() - j,
    {
        let a = allocations[j];
        let mut k: usize = 0;
        while k < j
            invariant
                k <= j < al.len(),
                al == allocations@,
                a == al[j as int],
                first_fault(*world, me, al, j as int) is None,
                spec_acting_citizen(*world, envelope.actor) == Ok::<int, RejectCode>(ci),
                world.citizens@[ci].id == me,
                al.len() <= world.params.labor.max_workplaces,
                forall|q: int| 0 <= q < k ==> (#[trigger] al[q]).workplace != a.workplace,
            decreases j - k,
        {
            if allocations[k].workplace == a.workplace {
                proof {
                    assert(al[k as int].workplace == a.workplace);
                    assert(allocation_fault(*world, me, al, j as int) == Some(RejectCode::InvalidQuantity));
                    assert(first_fault(*world, me, al, j + 1) == Some(RejectCode::InvalidQuantity));
                    lemma_first_fault_sticks(*world, me, al, j + 1, al.len() as int);
                }
                return Err(Reject::new(RejectCode::InvalidQuantity, say("duplicate workplace")));
            }
            k = k + 1;
        }
        let wi = match index_of(&world.workplaces, a.workplace.0) {
            Some(wi) => wi,
            None => {
                proof {
                    assert(allocation_fault(*world, me, al, j as int) == Some(RejectCode::UnknownWorkplace));
                    assert(first_fault(*world, me, al, j + 1) == Some(RejectCode::UnknownWorkplace));
                    lemma_first_fault_sticks(*world, me, al, j + 1, al.len() as int);
                }
                let mut m = say("no workplace ");
                put_workplace(&mut m, a.workplace);
                return Err(Reject::new(RejectCode::UnknownWorkplace, m));
            },
        };
        let asg = match position_on(&world.workplaces[wi].workers, me) {
            Some(x) => x,
            None => {
                proof {
                    assert(allocation_fault(*world, me, al, j as int) == Some(RejectCode::NotAssigned));
                    assert(first_fault(*world, me, al, j + 1) == Some(RejectCode::NotAssigned));
                    lemma_first_fault_sticks(*world, me, al, j + 1, al.len() as int);
                }
                let mut m = String::new();
                put_citizen(&mut m, me);
                put(&mut m, " has no position at ");
                put_workplace(&mut m, a.workplace);
                return Err(Reject::new(RejectCode::NotAssigned, m));
            },
        };
        if let Some(kid) = asg.contract {
            if let Some(ki) = index_of(&world.contracts, kid.0) {
                if let ContractBody::Employment { max_hours, .. } = world.contracts[ki].body {
                    if a.hours > max_hours {
                        proof {
                            assert(allocation_fault(*world, me, al, j as int) == Some(RejectCode::OverContractHours));
                            assert(first_fault(*world, me, al, j + 1) == Some(RejectCode::OverContractHours));
                            lemma_first_fault_sticks(*world, me, al, j + 1, al.len() as int);
                        }
                        let mut m = say("the contract allows at most ");
                        put_num(&mut m, max_hours as u64);
                        put(&mut m, " h at ");
                        put_workplace(&mut m, a.workplace);
                        return Err(Reject::new(RejectCode::OverContractHours, m));
                    }
                }
            }
        }
        proof {
            assert(allocation_fault(*world, me, al, j as int) is None);
        }
        j = j + 1;
    }
    let mut total: u64 = 0;
    let mut t: usize = 0;
    while t < allocations.len()
        invariant
            t <= al.len(),
            al == allocations@,
            al.len() <= 255,
            total == seq_sum(al.take(t as int), hours_of()),
            total <= 255 * t,
        decreases al.len() - t,
    {
        proof {
            lemma_sum_take_step(al, hours_of(), t as int);
        }
        total = total + allocations[t].hours as u64;
        t = t + 1;
    }
    proof {
        lemma_sum_take_all(al, hours_of());
    }
    if total > citizen.labor.budget as u64 {
        let mut m = String::new();
        put_num(&mut m, total);
        put(&mut m, " h exceeds this cycle's budget of ");
        put_num(&mut m, citizen.labor.budget as u64);
        put(&mut m, " h");
        return Err(Reject::new(RejectCode::OverBudget, m));
    }
    let mut copy: Vec<Allocation> = Vec::new();
    let mut q: usize = 0;
    while q < allocations.len()
        invariant
            q <= al.len(),
            al == allocations@,
            copy@ == al.take(q as int),
        decreases al.len() - q,
    {
        copy.push(allocations[q]);
        proof {
            assert(al.take(q + 1) =~= al.take(q as int).push(al[q as int]));
        }
        q = q + 1;
    }
    proof {
        assert(al.take(al.len() as int) =~= al);
    }
    let mut v: Vec<Event> = Vec::new();
    v.push(Event::LaborSet { citizen: me, allocations: copy });
    Ok(v)
}

} // verus!
