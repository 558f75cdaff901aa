//! The team's round: every controllable unit is dispatched to its role's
//! mainline. By day the wall worker (A) plans first, then the pioneer, then
//! the backstop walks home anyone still without a command, and the economy
//! worker (B) last; by night A runs the L, every other unit but B runs the
//! spare chain, and B keeps working outside. Claims are shared in that order
//! and no unit is ever commanded twice.

use vstd::prelude::*;
use crate::model::{Pos, Turn, Unit, UnitKind, is_controllable};
use crate::protocol::RoleCommand;
use crate::state::BotState;
use crate::brain::{Plan, distinct_ids, has_command};
use crate::brain::day::{RoundCtx, round_context, ring_latch, fallback_toward_station};
use crate::brain::action::geometry::{spec_wall_gaps, spec_ring_open_cells, spec_wall_daily_cap};
use crate::brain::action::tower_site::spec_tower_gaps;
use crate::brain::role::{Roles, spec_roles};
use crate::brain::role::wall_worker::{a_day_round, a_night_round, backstop_step};
use crate::brain::role::pioneer::{DayErrands, pioneer_round};
use crate::brain::role::economy_worker::{b_round, unit_of, unit_index, lemma_unit_of};
use crate::brain::night::spare_round;

verus! {

/// The first unit of ours with this id.
pub fn unit_by_id(turn: &Turn, id: i64) -> (r: Option<&Unit>)
    requires
        turn.wf(),
    ensures
        match unit_of(turn.ours@, id) {
            Some(u) => r == Some(&u),
            None => r is None,
        },
        r matches Some(u) ==> u.wf(),
{
    proof {
        lemma_unit_of(turn.ours@, id);
    }
    let mut i: usize = 0;
    while i < turn.ours.len()
        invariant
            i <= turn.ours@.len(),
            turn.wf(),
            forall|j: int| 0 <= j < i ==> (#[trigger] turn.ours@[j]).id != id,
        decreases turn.ours@.len() - i,
    {
        assert(turn.ours@[i as int].wf());
        if turn.ours[i].id == id {
            proof {
                lemma_unit_of(turn.ours@, id);
                match unit_index(turn.ours@, id) {
                    Some(k) => { if k < i { } else if k > i { } },
                    None => { assert(turn.ours@[i as int].id == id); },
                }
            }
            return Some(&turn.ours[i]);
        }
        i += 1;
    }
    None
}

fn contains_id(s: &[i64], id: i64) -> (r: bool)
    ensures
        r == s@.contains(id),
{
    let mut i: usize = 0;
    while i < s.len()
        invariant
            i <= s@.len(),
            forall|j: int| 0 <= j < i ==> s@[j] != id,
        decreases s@.len() - i,
    {
        if s[i] == id {
            assert(s@[i as int] == id);
            return true;
        }
        i += 1;
    }
    false
}

/// The round's context as `round_context` computes it from `s0`.
pub open spec fn ctx_of(turn: &Turn, s0: &BotState, ctx: &RoundCtx) -> bool {
    &&& ctx.wf()
    &&& ctx.tower_gaps@ == spec_tower_gaps(turn, s0)
    &&& ctx.wall_gaps@ == spec_wall_gaps(turn, s0)
    &&& ctx.wall_cap == spec_wall_daily_cap(turn.day, ring_latch(turn, s0), spec_ring_open_cells(turn, s0) as usize)
    &&& ctx.stone_demand == (if spec_wall_gaps(turn, s0).len() < ctx.wall_cap {
            spec_wall_gaps(turn, s0).len() as int
        } else {
            ctx.wall_cap as int
        })
}

/// A unit the backstop leaves alone: not ours to move, planned by its own
/// mainline, already commanded, or a pioneer holding a task point or the
/// altar.
pub open spec fn backstop_skips(u: Unit, state: &BotState, skip: Seq<i64>, holds_altar: bool, p: Plan) -> bool {
    ||| !is_controllable(u)
    ||| skip.contains(u.id)
    ||| has_command(p.commands@, u.id)
    ||| (u.kind == UnitKind::Pioneer && (state.task_active || holds_altar))
}

/// The backstop over the whole roster, each plan of `ps` the one before it
/// after that unit's turn.
pub open spec fn backstop_chain(turn: &Turn, state: &BotState, skip: Seq<i64>, holds_altar: bool, ps: Seq<Plan>) -> bool {
    &&& ps.len() == turn.ours@.len() + 1
    &&& forall|i: int| 0 <= i < turn.ours@.len() ==> {
        let u = #[trigger] turn.ours@[i];
        if backstop_skips(u, state, skip, holds_altar, ps[i]) { ps[i + 1] == ps[i] } else { backstop_step(turn, u, ps[i], ps[i + 1]) }
    }
}

pub open spec fn backstop_all(turn: &Turn, state: &BotState, skip: Seq<i64>, holds_altar: bool, p0: Plan, p1: Plan) -> bool {
    exists|ps: Seq<Plan>| #[trigger] backstop_chain(turn, state, skip, holds_altar, ps) && ps[0] == p0 && ps.last() == p1
}

/// Walk home every controllable unit still without a command, but the ones
/// `skip` names and a pioneer holding its task point or the altar: standing
/// still outside is never the plan.
pub fn plan_backstop(turn: &Turn, state: &BotState, skip: &[i64], holds_altar: bool, plan: &mut Plan)
    requires
        turn.wf(),
    ensures
        backstop_all(turn, state, skip@, holds_altar, *old(plan), *final(plan)),
        distinct_ids(old(plan).commands@) ==> distinct_ids(final(plan).commands@),
{
    let ghost mut ps: Seq<Plan> = seq![*plan];
    let mut i: usize = 0;
    while i < turn.ours.len()
        invariant
            i <= turn.ours@.len(),
            turn.wf(),
            ps.len() == i + 1,
            ps[0] == *old(plan),
            ps.last() == *plan,
            forall|k: int| 0 <= k < i ==> {
                let u = #[trigger] turn.ours@[k];
                if backstop_skips(u, state, skip@, holds_altar, ps[k]) { ps[k + 1] == ps[k] } else { backstop_step(turn, u, ps[k], ps[k + 1]) }
            },
            distinct_ids(old(plan).commands@) ==> distinct_ids(plan.commands@),
        decreases turn.ours@.len() - i,
    {
        let u = &turn.ours[i];
        assert(u.wf());
        let ghost before = *plan;
        let controllable = (u.kind == UnitKind::Worker || u.kind == UnitKind::Pioneer) && u.health > 0;
        let pioneer_held = u.kind == UnitKind::Pioneer && (state.task_active || holds_altar);
        if controllable && !contains_id(skip, u.id) && !plan.has(u.id) && !pioneer_held {
            match fallback_toward_station(turn, u) {
                Some(cmd) => plan.push(u.id, cmd),
                None => {},
            }
        }
        proof {
            let nps = ps.push(*plan);
            assert forall|k: int| 0 <= k < i + 1 implies {
                let w = #[trigger] turn.ours@[k];
                if backstop_skips(w, state, skip@, holds_altar, nps[k]) { nps[k + 1] == nps[k] } else { backstop_step(turn, w, nps[k], nps[k + 1]) }
            } by {
                if k < i {
                    assert(nps[k] == ps[k] && nps[k + 1] == ps[k + 1]);
                }
            }
            ps = nps;
        }
        i += 1;
    }
    assert(backstop_chain(turn, state, skip@, holds_altar, ps) && ps[0] == *old(plan) && ps.last() == *plan);
}

/// The day: the context, A's chain, the pioneer's, the backstop, then B's.
pub open spec fn team_day(turn: &Turn, e: DayErrands, treasure_live: bool, s0: &BotState, ctx: &RoundCtx,
    s1: &BotState, s2: &BotState, s3: &BotState, c1: Seq<Pos>, c2: Seq<Pos>, c3: Seq<Pos>,
    p0: Plan, p1: Plan, p2: Plan, p3: Plan, p4: Plan, s4: &BotState) -> bool {
    let roles = spec_roles(turn);
    let owned: Seq<i64> = match roles.economy_worker { Some(b) => seq![b], None => Seq::empty() };
    let skip: Seq<i64> = (match roles.wall_worker { Some(a) => seq![a], None => Seq::empty() })
        + (match roles.economy_worker { Some(b) => seq![b], None => Seq::empty() });
    &&& ctx_of(turn, s0, ctx)
    &&& *s1 == (BotState { ring_ever_complete: ring_latch(turn, s0), ..*s0 })
    &&& match roles.wall_worker {
        Some(a) => match unit_of(turn.ours@, a) {
            Some(ra) => a_day_round(turn, s1, s2, ra, ctx, owned, Seq::empty(), c1, p0, p1),
            None => *s2 == *s1 && c1 == Seq::<Pos>::empty() && p1 == p0,
        },
        None => *s2 == *s1 && c1 == Seq::<Pos>::empty() && p1 == p0,
    }
    &&& match roles.pioneer {
        Some(pid) => match unit_of(turn.ours@, pid) {
            Some(rp) => pioneer_round(turn, rp, e, s2, s3, c1, c2, p1, p2),
            None => *s3 == *s2 && c2 == c1 && p2 == p1,
        },
        None => *s3 == *s2 && c2 == c1 && p2 == p1,
    }
    &&& backstop_all(turn, s3, skip, e.holds_altar, p2, p3)
    &&& match roles.economy_worker {
        Some(b) => b_round(turn, b, treasure_live, s3, s4, c2, c3, p3, p4),
        None => *s4 == *s3 && c3 == c2 && p4 == p3,
    }
}

/// The spares of the night, each state, claim list and plan of the chains
/// the one before it after that unit's turn.
/// The spare that gets the task runner's command: the pioneer's first
/// controllable entry.
pub open spec fn task_arg(turn: &Turn, pid: Option<i64>, task_cmd: Option<RoleCommand>, k: int) -> Option<RoleCommand> {
    let u = turn.ours@[k];
    if is_controllable(u) && Some(u.id) == pid
        && forall|j: int| 0 <= j < k ==> !(is_controllable(#[trigger] turn.ours@[j]) && Some(turn.ours@[j].id) == pid) {
        task_cmd
    } else {
        None
    }
}

pub open spec fn spare_chain(turn: &Turn, a: Option<i64>, b: Option<i64>, pid: Option<i64>, task_cmd: Option<RoleCommand>,
    ss: Seq<BotState>, cs: Seq<Seq<Pos>>, ps: Seq<Plan>) -> bool {
    &&& ss.len() == turn.ours@.len() + 1
    &&& cs.len() == turn.ours@.len() + 1
    &&& ps.len() == turn.ours@.len() + 1
    &&& forall|i: int| 0 <= i < turn.ours@.len() ==> {
        let u = #[trigger] turn.ours@[i];
        if is_controllable(u) && Some(u.id) != a && Some(u.id) != b {
            match unit_of(turn.ours@, u.id) {
                Some(r) => spare_round(turn, r, task_arg(turn, pid, task_cmd, i), &ss[i], &ss[i + 1], cs[i], cs[i + 1],
                    ps[i], ps[i + 1]),
                None => ss[i + 1] == ss[i] && cs[i + 1] == cs[i] && ps[i + 1] == ps[i],
            }
        } else {
            ss[i + 1] == ss[i] && cs[i + 1] == cs[i] && ps[i + 1] == ps[i]
        }
    }
}

/// The night: A's L, the spares, then B.
pub open spec fn team_night(turn: &Turn, e: DayErrands, treasure_live: bool, s0: &BotState, s1: &BotState,
    c1: Seq<Pos>, p0: Plan, p1: Plan, ss: Seq<BotState>, cs: Seq<Seq<Pos>>, ps: Seq<Plan>, c3: Seq<Pos>, p4: Plan,
    s4: &BotState) -> bool {
    let roles = spec_roles(turn);
    &&& match roles.wall_worker {
        Some(a) => match unit_of(turn.ours@, a) {
            Some(ra) => a_night_round(turn, ra, s0, s1, Seq::empty(), c1, p0, p1),
            None => *s1 == *s0 && c1 == Seq::<Pos>::empty() && p1 == p0,
        },
        None => *s1 == *s0 && c1 == Seq::<Pos>::empty() && p1 == p0,
    }
    &&& spare_chain(turn, roles.wall_worker, roles.economy_worker, roles.pioneer, e.task, ss, cs, ps)
    &&& ss[0] == *s1 && cs[0] == c1 && ps[0] == p1
    &&& match roles.economy_worker {
        Some(b) => b_round(turn, b, treasure_live, &ss.last(), s4, cs.last(), c3, ps.last(), p4),
        None => *s4 == ss.last() && c3 == cs.last() && p4 == ps.last(),
    }
}

pub open spec fn empty_plan(p: Plan) -> bool {
    p.commands@.len() == 0 && p.prompt is None && p.execute_cmd is None
}

/// Plan one round for the whole team. `e` carries what the pioneer's
/// outside runners answered (its task and treasure commands, the altar
/// window, the reserve the shop may not spend); `treasure_live` whether a
/// treasure plan is live.
pub fn plan(turn: &Turn, state: &mut BotState, e: DayErrands, treasure_live: bool) -> (out: Plan)
    requires
        turn.wf(),
        old(state).wf(),
        turn.ours@.len() <= 10_000,
        0 <= e.reserve <= 1_000_000_000,
    ensures
        final(state).wf(),
        distinct_ids(out.commands@),
        turn.is_day ==> exists|p0: Plan, ctx: RoundCtx, s1: BotState, s2: BotState, s3: BotState, c1: Seq<Pos>,
            c2: Seq<Pos>, c3: Seq<Pos>, p1: Plan, p2: Plan, p3: Plan| #[trigger] team_day(turn, e, treasure_live,
            old(state), &ctx, &s1, &s2, &s3, c1, c2, c3, p0, p1, p2, p3, out, final(state)) && empty_plan(p0),
        !turn.is_day ==> exists|p0: Plan, s1: BotState, c1: Seq<Pos>, p1: Plan, ss: Seq<BotState>, cs: Seq<Seq<Pos>>,
            ps: Seq<Plan>, c3: Seq<Pos>| #[trigger] team_night(turn, e, treasure_live, old(state), &s1, c1, p0, p1,
            ss, cs, ps, c3, out, final(state)) && empty_plan(p0),
{
    let roles = Roles::of(turn);
    let mut claimed: Vec<Pos> = Vec::new();
    let mut plan = Plan::new();
    let ghost p0 = plan;
    if turn.is_day {
        let ghost s0 = *state;
        let ctx = round_context(turn, state);
        let ghost s1 = *state;
        let owned: Vec<i64> = match roles.economy_worker {
            Some(b) => vec![b],
            None => Vec::new(),
        };
        proof {
            match roles.economy_worker {
                Some(b) => assert(owned@ =~= seq![b]),
                None => assert(owned@ =~= Seq::<i64>::empty()),
            }
        }
        if let Some(a) = roles.wall_worker {
            if let Some(ra) = unit_by_id(turn, a) {
                crate::brain::role::wall_worker::plan_day(turn, state, ra, &ctx, &owned, &mut claimed, &mut plan);
            }
        }
        let ghost s2 = *state;
        let ghost c1 = claimed@;
        let ghost p1 = plan;
        let holds_altar = e.holds_altar;
        if let Some(pid) = roles.pioneer {
            if let Some(rp) = unit_by_id(turn, pid) {
                crate::brain::role::pioneer::plan(turn, state, rp, &mut claimed, &mut plan, e);
            }
        }
        let ghost s3 = *state;
        let ghost c2 = claimed@;
        let ghost p2 = plan;
        let mut skip: Vec<i64> = Vec::new();
        if let Some(a) = roles.wall_worker {
            skip.push(a);
        }
        if let Some(b) = roles.economy_worker {
            skip.push(b);
        }
        proof {
            let sa: Seq<i64> = match roles.wall_worker { Some(a) => seq![a], None => Seq::empty() };
            let sb: Seq<i64> = match roles.economy_worker { Some(b) => seq![b], None => Seq::empty() };
            assert(skip@ =~= sa + sb);
        }
        plan_backstop(turn, state, &skip, holds_altar, &mut plan);
        let ghost p3 = plan;
        if let Some(b) = roles.economy_worker {
            crate::brain::role::economy_worker::plan(turn, state, b, treasure_live, &mut claimed, &mut plan);
        }
        proof {
            assert(team_day(turn, e, treasure_live, &s0, &ctx, &s1, &s2, &s3, c1, c2, claimed@, p0, p1, p2, p3, plan, state));
        }
    } else {
        let ghost s0 = *state;
        if let Some(a) = roles.wall_worker {
            if let Some(ra) = unit_by_id(turn, a) {
                crate::brain::role::wall_worker::plan_night(turn, state, ra, &mut claimed, &mut plan);
            }
        }
        let ghost s1 = *state;
        let ghost c1 = claimed@;
        let ghost p1 = plan;
        let ghost mut ss: Seq<BotState> = seq![*state];
        let ghost mut cs: Seq<Seq<Pos>> = seq![claimed@];
        let ghost mut ps: Seq<Plan> = seq![plan];
        let mut task_left: Option<RoleCommand> = e.task;
        let mut given = false;
        let mut i: usize = 0;
        while i < turn.ours.len()
            invariant
                i <= turn.ours@.len(),
                turn.wf(),
                state.wf(),
                roles == spec_roles(turn),
                ss.len() == i + 1 && cs.len() == i + 1 && ps.len() == i + 1,
                ss[0] == s1 && cs[0] == c1 && ps[0] == p1,
                ss.last() == *state && cs.last() == claimed@ && ps.last() == plan,
                forall|k: int| 0 <= k < i ==> {
                    let u = #[trigger] turn.ours@[k];
                    if is_controllable(u) && Some(u.id) != roles.wall_worker && Some(u.id) != roles.economy_worker {
                        match unit_of(turn.ours@, u.id) {
                            Some(r) => spare_round(turn, r, task_arg(turn, roles.pioneer, e.task, k), &ss[k], &ss[k + 1],
                                cs[k], cs[k + 1], ps[k], ps[k + 1]),
                            None => ss[k + 1] == ss[k] && cs[k + 1] == cs[k] && ps[k + 1] == ps[k],
                        }
                    } else {
                        ss[k + 1] == ss[k] && cs[k + 1] == cs[k] && ps[k + 1] == ps[k]
                    }
                },
                distinct_ids(p1.commands@) ==> distinct_ids(plan.commands@),
                given == exists|j: int| 0 <= j < i && is_controllable(#[trigger] turn.ours@[j])
                    && Some(turn.ours@[j].id) == roles.pioneer,
                !given ==> task_left == e.task,
            decreases turn.ours@.len() - i,
        {
            let u = &turn.ours[i];
            assert(u.wf());
            let id = u.id;
            let controllable = (u.kind == UnitKind::Worker || u.kind == UnitKind::Pioneer) && u.health > 0;
            let task_here: Option<RoleCommand> = if controllable && roles.pioneer == Some(id) && !given {
                given = true;
                task_left.take()
            } else {
                None
            };
            proof {
                if controllable && roles.pioneer == Some(id) {
                    assert(is_controllable(turn.ours@[i as int]));
                }
                assert(task_here == task_arg(turn, roles.pioneer, e.task, i as int));
            }
            if controllable && roles.wall_worker != Some(id) && roles.economy_worker != Some(id) {
                if let Some(r) = unit_by_id(turn, id) {
                    crate::brain::night::plan_spare(turn, state, r, &mut claimed, &mut plan, task_here);
                }
            }
            proof {
                let nss = ss.push(*state);
                let ncs = cs.push(claimed@);
                let nps = ps.push(plan);
                assert forall|k: int| 0 <= k < i + 1 implies {
                    let w = #[trigger] turn.ours@[k];
                    if is_controllable(w) && Some(w.id) != roles.wall_worker && Some(w.id) != roles.economy_worker {
                        match unit_of(turn.ours@, w.id) {
                            Some(r) => spare_round(turn, r, task_arg(turn, roles.pioneer, e.task, k), &nss[k], &nss[k + 1],
                                ncs[k], ncs[k + 1], nps[k], nps[k + 1]),
                            None => nss[k + 1] == nss[k] && ncs[k + 1] == ncs[k] && nps[k + 1] == nps[k],
                        }
                    } else {
                        nss[k + 1] == nss[k] && ncs[k + 1] == ncs[k] && nps[k + 1] == nps[k]
                    }
                } by {
                    if k < i {
                        assert(nss[k] == ss[k] && nss[k + 1] == ss[k + 1]);
                        assert(ncs[k] == cs[k] && ncs[k + 1] == cs[k + 1]);
                        assert(nps[k] == ps[k] && nps[k + 1] == ps[k + 1]);
                    }
                }
                ss = nss;
                cs = ncs;
                ps = nps;
            }
            i += 1;
        }
        if let Some(b) = roles.economy_worker {
            crate::brain::role::economy_worker::plan(turn, state, b, treasure_live, &mut claimed, &mut plan);
        }
        proof {
            assert(spare_chain(turn, roles.wall_worker, roles.economy_worker, roles.pioneer, e.task, ss, cs, ps));
            assert(team_night(turn, e, treasure_live, &s0, &s1, c1, p0, p1, ss, cs, ps, claimed@, plan, state));
        }
    }
    plan
}

} // verus!
