//! Role identification: the three people the plan is organized around.
//!
//! * **pioneer** — the first live pioneer: tasks, shopping, night repairs;
//! * **wall worker** (A) — the live worker with the lowest id: weapons and
//!   walls first, surplus mining second;
//! * **economy worker** (B) — the live worker with the highest id when two or
//!   more workers are alive: the full-time mine→sell loop.

use vstd::prelude::*;
use crate::model::{Turn, Unit, UnitKind};

pub mod economy_worker;
pub mod pioneer;
pub mod wall_worker;

verus! {

/// Which mainline a controllable unit belongs to.
#[derive(Clone, Copy, Debug, PartialEq, Eq, Structural)]
pub enum RoleKind {
    Pioneer,
    WallWorker,
    EconomyWorker,
}

/// The three slots of the team, as unit ids.
#[derive(Clone, Copy, Debug, PartialEq, Eq, Structural)]
pub struct Roles {
    pub pioneer: Option<i64>,
    pub wall_worker: Option<i64>,
    pub economy_worker: Option<i64>,
}

pub open spec fn is_live_worker(u: Unit) -> bool {
    u.kind == UnitKind::Worker && u.health > 0
}

/// Number of live workers.
pub open spec fn worker_count(s: Seq<Unit>) -> int
    decreases s.len(),
{
    if s.len() == 0 { 0 } else { worker_count(s.drop_last()) + if is_live_worker(s.last()) { 1int } else { 0int } }
}

/// The lowest id of a live worker.
pub open spec fn min_worker(s: Seq<Unit>) -> Option<i64>
    decreases s.len(),
{
    if s.len() == 0 {
        None
    } else {
        let rest = min_worker(s.drop_last());
        if is_live_worker(s.last()) {
            match rest {
                Some(m) => if s.last().id < m { Some(s.last().id) } else { Some(m) },
                None => Some(s.last().id),
            }
        } else {
            rest
        }
    }
}

/// The highest id of a live worker.
pub open spec fn max_worker(s: Seq<Unit>) -> Option<i64>
    decreases s.len(),
{
    if s.len() == 0 {
        None
    } else {
        let rest = max_worker(s.drop_last());
        if is_live_worker(s.last()) {
            match rest {
                Some(m) => if s.last().id > m { Some(s.last().id) } else { Some(m) },
                None => Some(s.last().id),
            }
        } else {
            rest
        }
    }
}

/// The id of the first live pioneer.
pub open spec fn first_pioneer(s: Seq<Unit>) -> Option<i64>
    decreases s.len(),
{
    if s.len() == 0 {
        None
    } else {
        match first_pioneer(s.drop_last()) {
            Some(id) => Some(id),
            None => if s.last().kind == UnitKind::Pioneer && s.last().health > 0 { Some(s.last().id) } else { None },
        }
    }
}

pub open spec fn spec_roles(turn: &Turn) -> Roles {
    let n = worker_count(turn.ours@);
    Roles {
        pioneer: first_pioneer(turn.ours@),
        wall_worker: if n >= 1 { min_worker(turn.ours@) } else { None },
        economy_worker: if n >= 2 { max_worker(turn.ours@) } else { None },
    }
}

impl Roles {
    /// Resolve the roster for this round.
    pub fn of(turn: &Turn) -> (r: Roles)
        requires
            turn.ours@.len() <= 10_000,
        ensures
            r == spec_roles(turn),
    {
        let mut n: usize = 0;
        let mut lo: Option<i64> = None;
        let mut hi: Option<i64> = None;
        let mut pioneer: Option<i64> = None;
        let mut i: usize = 0;
        while i < turn.ours.len()
            invariant
                i <= turn.ours@.len(),
                turn.ours@.len() <= 10_000,
                n == worker_count(turn.ours@.take(i as int)),
                n <= i,
                lo == min_worker(turn.ours@.take(i as int)),
                hi == max_worker(turn.ours@.take(i as int)),
                pioneer == first_pioneer(turn.ours@.take(i as int)),
            decreases turn.ours@.len() - i,
        {
            assert(turn.ours@.take(i as int + 1).drop_last() =~= turn.ours@.take(i as int));
            let u = &turn.ours[i];
            if u.kind == UnitKind::Worker && u.health > 0 {
                n += 1;
                lo = match lo {
                    Some(m) => if u.id < m { Some(u.id) } else { Some(m) },
                    None => Some(u.id),
                };
                hi = match hi {
                    Some(m) => if u.id > m { Some(u.id) } else { Some(m) },
                    None => Some(u.id),
                };
            }
            if pioneer.is_none() && u.kind == UnitKind::Pioneer && u.health > 0 {
                pioneer = Some(u.id);
            }
            i += 1;
        }
        assert(turn.ours@.take(turn.ours@.len() as int) =~= turn.ours@);
        Roles {
            pioneer,
            wall_worker: if n >= 1 { lo } else { None },
            economy_worker: if n >= 2 { hi } else { None },
        }
    }

    pub open spec fn spec_kind_of(&self, id: i64) -> Option<RoleKind> {
        if self.pioneer == Some(id) {
            Some(RoleKind::Pioneer)
        } else if self.wall_worker == Some(id) {
            Some(RoleKind::WallWorker)
        } else if self.economy_worker == Some(id) {
            Some(RoleKind::EconomyWorker)
        } else {
            None
        }
    }

    /// The mainline of one unit, or `None` for a unit that is none of the
    /// three people.
    pub fn kind_of(&self, id: i64) -> (k: Option<RoleKind>)
        ensures
            k == self.spec_kind_of(id),
    {
        if self.pioneer == Some(id) {
            return Some(RoleKind::Pioneer);
        }
        if self.wall_worker == Some(id) {
            return Some(RoleKind::WallWorker);
        }
        if self.economy_worker == Some(id) {
            return Some(RoleKind::EconomyWorker);
        }
        None
    }
}

} // verus!
