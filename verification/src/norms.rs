//! Norms: pledges of work to an org or to the assembly.
use crate::apply::works_in;
use crate::command::{acting_citizen, spec_acting_citizen, Envelope, Reject, RejectCode};
use crate::event::{Actor, Event};
use crate::ids::{CitizenId, OrgId, WorkplaceId};
use crate::ledger::Party;
use crate::orgs::{check_room, spec_check_room};
use crate::sum::{lemma_sum_take_all, lemma_sum_take_step, seq_sum};
use crate::table::{find, first, index_of, lemma_first};
use crate::world::{Worker, Workplace, World};
use crate::message::{put, put_citizen, put_contract, put_dwelling, put_kind, put_money, put_name, put_num, put_org, put_party, put_slot, put_workplace, say};
use vstd::prelude::*;

verus! {

/// The parties of a pledge contract: the citizen and the org, or the citizen
/// twice for a pledge to the assembly.
pub fn pledge_parties(citizen: CitizenId, to: Option<OrgId>) -> (r: (Party, Party))
    ensures
        r.0 == Party::Citizen(citizen),
        r.1 == match to {
            Some(o) => Party::Org(o),
            None => Party::Citizen(citizen),
        },
{
    let other = match to {
        Some(o) => Party::Org(o),
        None => Party::Citizen(citizen),
    };
    (Party::Citizen(citizen), other)
}

/// Whether `c` is among the workers `v`.
pub fn works_among(v: &Vec<Worker>, c: CitizenId) -> (b: bool)
    ensures
        b == works_in(v@, c),
{
    let mut k: usize = 0;
    while k < v.len()
        invariant
            k <= v@.len(),
            forall|j: int| 0 <= j < k ==> (#[trigger] v@[j]).citizen != c,
        decreases v@.len() - k,
    {
        if v[k].citizen == c {
            return true;
        }
        k = k + 1;
    }
    false
}

/// A workplace, as a count where `c` holds a position there.
pub open spec fn position_of(c: CitizenId) -> spec_fn(Workplace) -> int {
    |x: Workplace|
        if works_in(x.workers@, c) {
            1int
        } else {
            0int
        }
}

/// How many workplaces `c` holds a position at.
pub open spec fn positions(w: World, c: CitizenId) -> int {
    seq_sum(w.workplaces@, position_of(c))
}

/// How many workplaces `c` holds a position at.
fn count_positions(world: &World, c: CitizenId) -> (n: u64)
    ensures
        n == positions(*world, c),
{
    let mut n: u64 = 0;
    let mut k: usize = 0;
    while k < world.workplaces.len()
        invariant
            k <= world.workplaces@.len(),
            n <= k,
            n == seq_sum(world.workplaces@.take(k as int), position_of(c)),
        decreases world.workplaces@.len() - k,
    {
        proof {
            lemma_sum_take_step(world.workplaces@, position_of(c), k as int);
        }
        if works_among(&world.workplaces[k].workers, c) {
            n = n + 1;
        }
        k = k + 1;
    }
    proof {
        lemma_sum_take_all(world.workplaces@, position_of(c));
    }
    n
}

/// What `JoinWorkplace` emits: a contract-less position at a workplace with
/// room, for a citizen not there yet and below the most workplaces one holds.
pub open spec fn spec_join_workplace(w: World, actor: Actor, workplace: WorkplaceId) -> Result<Seq<Event>, RejectCode> {
    match spec_acting_citizen(w, actor) {
        Err(c) => Err(c),
        Ok(ci) => match spec_check_room(w, workplace) {
            Err(c) => Err(c),
            Ok(wi) => {
                let c = w.citizens@[ci].id;
                if works_in(w.workplaces@[wi].workers@, c) {
                    Err(RejectCode::AlreadyExists)
                } else if positions(w, c) >= w.params.labor.max_workplaces {
                    Err(RejectCode::TooManyWorkplaces)
                } else {
                    Ok(seq![Event::Assigned { workplace, citizen: c, contract: None }])
                }
            },
        },
    }
}

/// `JoinWorkplace` (norm systems): take a position at a workplace with room.
/// Positions carry no contract; the Ledger of Contribution is the record.
pub fn join_workplace<C>(world: &World, envelope: &Envelope<C>, workplace: WorkplaceId) -> (r: Result<Vec<Event>, Reject>)
    ensures
        match (r, spec_join_workplace(*world, envelope.actor, workplace)) {
            (Ok(v), Ok(s)) => v@ == s,
            (Err(e), Err(code)) => e.code == code,
            _ => false,
        },
{
    let citizen = acting_citizen(world, envelope)?;
    let wp = check_room(world, workplace)?;
    if works_among(&wp.workers, citizen.id) {
        return Err(Reject::new(RejectCode::AlreadyExists, { let mut m = String::new(); put_citizen(&mut m, citizen.id); put(&mut m, " already works at "); put_workplace(&mut m, workplace); m }));
    }
    let held = count_positions(world, citizen.id);
    if held >= world.params.labor.max_workplaces as u64 {
        return Err(Reject::new(RejectCode::TooManyWorkplaces, { let mut m = say("at most "); put_num(&mut m, world.params.labor.max_workplaces as u64); put(&mut m, " workplaces"); m }));
    }
    let mut v: Vec<Event> = Vec::new();
    v.push(Event::Assigned { workplace, citizen: citizen.id, contract: None });
    proof {
        assert(v@ =~= seq![Event::Assigned { workplace, citizen: citizen.id, contract: None }]);
    }
    Ok(v)
}

/// Whether a worker is `c`.
pub open spec fn is_worker(c: CitizenId) -> spec_fn(Worker) -> bool {
    |x: Worker| x.citizen == c
}

/// What `LeaveWorkplace` emits: a citizen gives up a position that carries
/// no contract.
pub open spec fn spec_leave_workplace(w: World, actor: Actor, workplace: WorkplaceId) -> Result<Seq<Event>, RejectCode> {
    match spec_acting_citizen(w, actor) {
        Err(c) => Err(c),
        Ok(ci) => match find(w.workplaces@, workplace.0) {
            None => Err(RejectCode::UnknownWorkplace),
            Some(wi) => {
                let c = w.citizens@[ci].id;
                let ws = w.workplaces@[wi].workers@;
                match first(ws, is_worker(c)) {
                    Some(k) => if ws[k].assignment.contract is None {
                        Ok(seq![Event::Unassigned { workplace, citizen: c }])
                    } else {
                        Err(RejectCode::NotAssigned)
                    },
                    None => Err(RejectCode::NotAssigned),
                }
            },
        },
    }
}

/// `LeaveWorkplace`: give up a contract-less position.
pub fn leave_workplace<C>(world: &World, envelope: &Envelope<C>, workplace: WorkplaceId) -> (r: Result<Vec<Event>, Reject>)
    ensures
        match (r, spec_leave_workplace(*world, envelope.actor, workplace)) {
            (Ok(v), Ok(s)) => v@ == s,
            (Err(e), Err(code)) => e.code == code,
            _ => false,
        },
{
    let citizen = acting_citizen(world, envelope)?;
    let i = match index_of(&world.workplaces, workplace.0) {
        Some(i) => i,
        None => {
            return Err(Reject::new(RejectCode::UnknownWorkplace, { let mut m = say("no workplace "); put_workplace(&mut m, workplace); m }));
        },
    };
    let ws = &world.workplaces[i].workers;
    let c = citizen.id;
    let ghost ci = spec_acting_citizen(*world, envelope.actor)->Ok_0;
    let mut k: usize = 0;
    while k < ws.len()
        invariant
            k <= ws@.len(),
            spec_acting_citizen(*world, envelope.actor) == Ok::<int, RejectCode>(ci),
            world.citizens@[ci].id == c,
            find(world.workplaces@, workplace.0) == Some(i as int),
            ws@ == world.workplaces@[i as int].workers@,
            forall|j: int| 0 <= j < k ==> !(is_worker(c))(#[trigger] ws@[j]),
        decreases ws@.len() - k,
    {
        if ws[k].citizen == c {
            proof {
                lemma_first(ws@, is_worker(c));
                let f = first(ws@, is_worker(c))->0;
                assert(f == k) by {
                    if f < k {
                        assert(!(is_worker(c))(ws@[f]));
                    }
                    if k < f {
                        assert((is_worker(c))(ws@[k as int]));
                    }
                }
            }
            if ws[k].assignment.contract.is_none() {
                let mut v: Vec<Event> = Vec::new();
                v.push(Event::Unassigned { workplace, citizen: c });
                proof {
                    assert(v@ =~= seq![Event::Unassigned { workplace, citizen: c }]);
                }
                return Ok(v);
            }
            return Err(Reject::new(RejectCode::NotAssigned, { let mut m = String::new(); put_citizen(&mut m, c); put(&mut m, " holds no position at "); put_workplace(&mut m, workplace); m }));
        }
        k = k + 1;
    }
    proof {
        lemma_first(ws@, is_worker(c));
    }
    Err(Reject::new(RejectCode::NotAssigned, { let mut m = String::new(); put_citizen(&mut m, c); put(&mut m, " holds no position at "); put_workplace(&mut m, workplace); m }))
}

} // verus!
