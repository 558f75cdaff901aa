//! The night chain a spare controller runs — heal, shelter inside the ring,
//! spend the base vouchers, mend the wall, throw the items — and the shelter
//! walk it starts with.

use vstd::prelude::*;
use crate::brain::distinct_ids;
use crate::model::{Pos, Turn, Unit, UnitKind, Item, Robot, cheb, chebyshev, pos_ok, all_pos_ok,
    spec_neighbours, spec_blocked_for, wall_pos_list};
use crate::protocol::RoleCommand;
use crate::state::BotState;
use crate::path::{passable, reaches, in_grid};
use crate::brain::{reroute_result, break_out_result, Plan, plan_pushed, has_command, walk_result, good_step, walk_blocked, usable_pred,
    spec_interior_cells, interior_cells, walk_toward, walk_or_remove_wall, break_out, land_pred};
use crate::brain::combat::{spec_night_mend_target, night_mend_target, spec_bomb_impact, bomb_impact,
    spec_dizzy_impact, dizzy_impact, is_big_threat};
use crate::brain::action::shop::{voucher_job, voucher_flow, spec_summon_burn, burn_summon_order, same_but_summons};
use crate::brain::action::fight::{spec_night_medicine, night_medicine};

verus! {

// ---------------------------------------------------------------------------
// Shelter
// ---------------------------------------------------------------------------

/// Distance from `p` to the nearest live robot of `s` (`i32::MAX` when none
/// lives).
pub open spec fn nearest_robot(s: Seq<Robot>, p: Pos) -> int
    decreases s.len(),
{
    if s.len() == 0 {
        i32::MAX as int
    } else {
        let rest = nearest_robot(s.drop_last(), p);
        let x = s.last();
        if x.health > 0 && cheb(p, x.pos) < rest { cheb(p, x.pos) } else { rest }
    }
}

/// Insert `x` into `s` (kept farthest-from-robots first) after every cell
/// at least as far.
pub open spec fn insert_far(turn: &Turn, s: Seq<Pos>, x: Pos) -> Seq<Pos>
    decreases s.len(),
{
    if s.len() == 0 {
        seq![x]
    } else if nearest_robot(turn.robots@, s[0]) < nearest_robot(turn.robots@, x) {
        seq![x] + s
    } else {
        seq![s[0]] + insert_far(turn, s.subrange(1, s.len() as int), x)
    }
}

/// `s` ordered farthest from the nearest robot first, ties in their order.
pub open spec fn sort_far(turn: &Turn, s: Seq<Pos>) -> Seq<Pos>
    decreases s.len(),
{
    if s.len() == 0 { Seq::empty() } else { insert_far(turn, sort_far(turn, s.drop_last()), s.last()) }
}

pub fn nearest_robot_of(turn: &Turn, p: Pos) -> (d: i32)
    requires
        turn.wf(),
        pos_ok(p),
    ensures
        d == nearest_robot(turn.robots@, p),
{
    let mut best: i32 = i32::MAX;
    let mut i: usize = 0;
    while i < turn.robots.len()
        invariant
            i <= turn.robots@.len(),
            turn.wf(),
            pos_ok(p),
            best == nearest_robot(turn.robots@.take(i as int), p),
        decreases turn.robots@.len() - i,
    {
        assert(turn.robots@.take(i as int + 1).drop_last() =~= turn.robots@.take(i as int));
        assert(turn.robots@.take(i as int + 1).last() == turn.robots@[i as int]);
        let r = &turn.robots[i];
        assert(r.wf());
        if r.health > 0 {
            let d = chebyshev(p, r.pos);
            if d < best {
                best = d;
            }
        }
        i += 1;
    }
    assert(turn.robots@.take(turn.robots@.len() as int) =~= turn.robots@);
    best
}

/// Inserting after the cells at least as far is a split at the first nearer
/// cell.
proof fn lemma_insert_far_at(turn: &Turn, s: Seq<Pos>, x: Pos, j: int)
    requires
        0 <= j <= s.len(),
        forall|k: int| 0 <= k < j ==> nearest_robot(turn.robots@, #[trigger] s[k]) >= nearest_robot(turn.robots@, x),
        j < s.len() ==> nearest_robot(turn.robots@, s[j]) < nearest_robot(turn.robots@, x),
    ensures
        insert_far(turn, s, x) == s.take(j) + seq![x] + s.skip(j),
    decreases s.len(),
{
    if s.len() == 0 {
        assert(s.take(j) + seq![x] + s.skip(j) =~= seq![x]);
    } else if j == 0 {
        assert(s.take(0) + seq![x] + s.skip(0) =~= seq![x] + s);
    } else {
        let t = s.subrange(1, s.len() as int);
        assert forall|k: int| 0 <= k < j - 1 implies nearest_robot(turn.robots@, #[trigger] t[k]) >= nearest_robot(turn.robots@, x) by {
            assert(t[k] == s[k + 1]);
        }
        if j - 1 < t.len() {
            assert(t[j - 1] == s[j]);
        }
        lemma_insert_far_at(turn, t, x, j - 1);
        assert(seq![s[0]] + (t.take(j - 1) + seq![x] + t.skip(j - 1)) =~= s.take(j) + seq![x] + s.skip(j));
    }
}

/// `stands` sorted farthest from the nearest live robot first (stable).
fn sorted_far(turn: &Turn, stands: &Vec<Pos>) -> (r: Vec<Pos>)
    requires
        turn.wf(),
        all_pos_ok(stands@),
    ensures
        r@ == sort_far(turn, stands@),
        all_pos_ok(r@),
        forall|k: int| 0 <= k < r@.len() ==> stands@.contains(#[trigger] r@[k]),
{
    let mut out: Vec<Pos> = Vec::new();
    let mut keys: Vec<i32> = Vec::new();
    let mut i: usize = 0;
    while i < stands.len()
        invariant
            i <= stands@.len(),
            turn.wf(),
            all_pos_ok(stands@),
            out@ == sort_far(turn, stands@.take(i as int)),
            keys@.len() == out@.len(),
            forall|k: int| 0 <= k < out@.len() ==> keys@[k] == nearest_robot(turn.robots@, #[trigger] out@[k]),
            forall|k: int| 0 <= k < out@.len() ==> stands@.take(i as int).contains(#[trigger] out@[k]),
            out@.len() == i,
        decreases stands@.len() - i,
    {
        assert(stands@.take(i as int + 1).drop_last() =~= stands@.take(i as int));
        assert(stands@.take(i as int + 1).last() == stands@[i as int]);
        let x = stands[i];
        let kx = nearest_robot_of(turn, x);
        let mut j: usize = 0;
        while j < out.len() && keys[j] >= kx
            invariant
                j <= out@.len(),
                keys@.len() == out@.len(),
                forall|k: int| 0 <= k < out@.len() ==> keys@[k] == nearest_robot(turn.robots@, #[trigger] out@[k]),
                forall|k: int| 0 <= k < j ==> nearest_robot(turn.robots@, #[trigger] out@[k]) >= kx,
            decreases out@.len() - j,
        {
            j += 1;
        }
        proof {
            lemma_insert_far_at(turn, out@, x, j as int);
        }
        let ghost before = out@;
        let ghost kbefore = keys@;
        out.insert(j, x);
        keys.insert(j, kx);
        assert(out@ =~= before.take(j as int) + seq![x] + before.skip(j as int));
        assert forall|k: int| 0 <= k < out@.len() implies keys@[k] == nearest_robot(turn.robots@, #[trigger] out@[k]) by {
            if k < j {
                assert(out@[k] == before[k]);
            } else if k > j {
                assert(out@[k] == before[k - 1]);
            }
        }
        assert forall|k: int| 0 <= k < out@.len() implies stands@.take(i as int + 1).contains(#[trigger] out@[k]) by {
            if k < j {
                assert(out@[k] == before[k]);
                let m = choose|m: int| 0 <= m < stands@.take(i as int).len() && stands@.take(i as int)[m] == before[k];
                assert(stands@.take(i as int + 1)[m] == before[k]);
            } else if k > j {
                assert(out@[k] == before[k - 1]);
                let m = choose|m: int| 0 <= m < stands@.take(i as int).len() && stands@.take(i as int)[m] == before[k - 1];
                assert(stands@.take(i as int + 1)[m] == before[k - 1]);
            } else {
                assert(stands@.take(i as int + 1)[i as int] == x);
            }
        }
        i += 1;
    }
    assert(stands@.take(stands@.len() as int) =~= stands@);
    assert forall|k: int| 0 <= k < out@.len() implies pos_ok(#[trigger] out@[k]) by {
        assert(stands@.contains(out@[k]));
        let m = choose|m: int| 0 <= m < stands@.len() && stands@[m] == out@[k];
    }
    out
}

/// The escape of a role the walk could not bring in, claims ignored: the
/// reroute's command (a step, or our own wall cut to reopen the route);
/// failing that, `break_out`'s.
pub open spec fn escape_result(turn: &Turn, role: Unit, sorted: Seq<Pos>, r: Option<RoleCommand>) -> bool {
    ||| r is Some && exists|c1: Seq<Pos>| #[trigger] reroute_result(turn, role, sorted, Seq::empty(), c1, r)
    ||| reroute_result(turn, role, sorted, Seq::empty(), Seq::empty(), None)
        && exists|c2: Seq<Pos>| #[trigger] break_out_result(turn, role, sorted, Seq::empty(), c2, r)
}

/// Move a role inside the wall ring, onto a cell hugging the station,
/// preferring the cells farthest from the nearest robot. Returns whether a
/// command was pushed. A role already hugging the station, or a board with no
/// such cell, gets nothing. The walk honours the cells teammates claimed;
/// when it finds no route the role cuts its way in, ignoring claims.
pub fn shelter(turn: &Turn, role: &Unit, claimed: &mut Vec<Pos>, plan: &mut Plan) -> (r: bool)
    requires
        turn.wf(),
        role.wf(),
    ensures
        distinct_ids(old(plan).commands@) ==> distinct_ids(final(plan).commands@),
        shelter_outcome(turn, *role, old(claimed)@, final(claimed)@, *old(plan), *final(plan), r),
{
    let stands = interior_cells(turn);
    if stands.len() == 0 {
        return false;
    }
    if crate::model::contains_pos(&stands, role.pos) {
        return false;
    }
    let sorted = sorted_far(turn, &stands);
    let walked = walk_toward(turn, role, &sorted, claimed);
    match walked {
        Some(cmd) => {
            assert(walk_result(turn, *role, sorted@, old(claimed)@, claimed@, Some(cmd)));
            plan.push(role.id, cmd);
            assert(plan_pushed(*old(plan), *plan, role.id, cmd));
            return true;
        },
        None => {},
    }
    assert(walk_result(turn, *role, sorted@, old(claimed)@, old(claimed)@, None));
    let mut ignored: Vec<Pos> = Vec::new();
    let opened = walk_or_remove_wall(turn, role, &sorted, &mut ignored);
    match opened {
        Some(cmd) => {
            assert(reroute_result(turn, *role, sorted@, Seq::empty(), ignored@, opened));
            assert(escape_result(turn, *role, sorted@, Some(cmd)));
            plan.push(role.id, cmd);
            assert(plan_pushed(*old(plan), *plan, role.id, cmd));
            return true;
        },
        None => {},
    }
    assert(ignored@ == Seq::<Pos>::empty());
    assert(reroute_result(turn, *role, sorted@, Seq::empty(), Seq::empty(), None));
    let cut = break_out(turn, role, &sorted, &mut ignored);
    assert(break_out_result(turn, *role, sorted@, Seq::empty(), ignored@, cut));
    assert(escape_result(turn, *role, sorted@, cut));
    match cut {
        Some(cmd) => {
            plan.push(role.id, cmd);
            assert(plan_pushed(*old(plan), *plan, role.id, cmd));
            true
        },
        None => false,
    }
}

// ---------------------------------------------------------------------------
// The night duties
// ---------------------------------------------------------------------------

/// Live robots of `s` within one cell of `p`.
pub open spec fn robots_near_count(s: Seq<Robot>, p: Pos) -> int
    decreases s.len(),
{
    if s.len() == 0 {
        0
    } else {
        robots_near_count(s.drop_last(), p) + if s.last().health > 0 && cheb(p, s.last().pos) <= 1 { 1int } else { 0int }
    }
}

/// A live large or boss robot stands within one cell of `p`.
pub open spec fn big_near(turn: &Turn, p: Pos) -> bool {
    exists|i: int| 0 <= i < turn.robots@.len() && (#[trigger] turn.robots@[i]).health > 0
        && cheb(p, turn.robots@[i].pos) <= 1
        && (turn.robots@[i].kind == crate::model::RobotKind::Large || turn.robots@[i].kind == crate::model::RobotKind::Boss)
}

/// A bomb is worth throwing at a cluster of two or more robots, or at a big
/// one.
pub open spec fn bomb_worth(turn: &Turn, p: Pos) -> bool {
    robots_near_count(turn.robots@, p) >= 2 || big_near(turn, p)
}

/// The item duty of a role inside the ring: mend the weakest adjacent wall,
/// else burn a summon order, else throw a bomb where it is worth it, else
/// stun a wave pressing the base.
pub open spec fn spec_item_duty(turn: &Turn, state: &BotState, role: Unit) -> Option<RoleCommand> {
    match spec_night_mend_target(turn, role) {
        Some(p) => Some(RoleCommand::UseAt(Item::WallFixer, p)),
        None => match spec_summon_burn(state, role) {
            Some(o) => Some(RoleCommand::Use(o)),
            None => {
                let bomb = if role.spec_count(Item::Bomb) > 0 {
                    match spec_bomb_impact(turn) {
                        Some(i) => if bomb_worth(turn, i) { Some(RoleCommand::UseAt(Item::Bomb, i)) } else { None },
                        None => None,
                    }
                } else {
                    None
                };
                match bomb {
                    Some(c) => Some(c),
                    None => if role.spec_count(Item::DizzyWeapon) > 0 {
                        match spec_dizzy_impact(turn) {
                            Some(i) => Some(RoleCommand::UseAt(Item::DizzyWeapon, i)),
                            None => None,
                        }
                    } else {
                        None
                    },
                }
            },
        },
    }
}

/// The planners' memory is as it was.
pub open spec fn state_kept(a: &BotState, b: &BotState) -> bool {
    same_but_summons(a, b) && b.summon_orders_today == a.summon_orders_today
        && b.harass_done_today == a.harass_done_today
}

/// What the item duty does to the memory: a burned order is counted and
/// marks the day's harassment done; nothing else changes.
pub open spec fn duty_state(turn: &Turn, a: &BotState, b: &BotState, role: Unit) -> bool {
    if spec_night_mend_target(turn, role) is None && spec_summon_burn(a, role) is Some {
        same_but_summons(a, b) && b.summon_orders_today == a.summon_orders_today + 1 && b.harass_done_today
    } else {
        state_kept(a, b)
    }
}

proof fn lemma_first_max_inner(s: Seq<Robot>, f: spec_fn(Robot) -> int)
    requires
        crate::model::robots_wf(s),
    ensures
        crate::brain::combat::first_max(s, f) matches Some(b) ==> crate::model::pos_inner(b.1),
    decreases s.len(),
{
    if s.len() > 0 {
        assert(crate::model::robots_wf(s.drop_last())) by {
            assert forall|i: int| 0 <= i < s.drop_last().len() implies (#[trigger] s.drop_last()[i]).wf() by {
                assert(s.drop_last()[i] == s[i]);
            }
        }
        lemma_first_max_inner(s.drop_last(), f);
        assert(s[s.len() - 1].wf());
    }
}

proof fn lemma_filter_robots_wf(s: Seq<Robot>, pred: spec_fn(Robot) -> bool)
    requires
        crate::model::robots_wf(s),
    ensures
        crate::model::robots_wf(s.filter(pred)),
{
    assert forall|i: int| 0 <= i < s.filter(pred).len() implies (#[trigger] s.filter(pred)[i]).wf() by {
        s.lemma_filter_contains_rev(pred, s.filter(pred)[i]);
        let j = choose|j: int| 0 <= j < s.len() && s[j] == s.filter(pred)[i];
    }
}

fn bomb_worth_at(turn: &Turn, p: Pos) -> (r: bool)
    requires
        turn.wf(),
        pos_ok(p),
    ensures
        r == bomb_worth(turn, p),
{
    let mut n: i64 = 0;
    let mut big = false;
    let mut i: usize = 0;
    while i < turn.robots.len()
        invariant
            i <= turn.robots@.len(),
            turn.wf(),
            pos_ok(p),
            n == robots_near_count(turn.robots@.take(i as int), p),
            0 <= n <= i,
            big == exists|k: int| 0 <= k < i && (#[trigger] turn.robots@[k]).health > 0
                && cheb(p, turn.robots@[k].pos) <= 1
                && (turn.robots@[k].kind == crate::model::RobotKind::Large || turn.robots@[k].kind == crate::model::RobotKind::Boss),
        decreases turn.robots@.len() - i,
    {
        assert(turn.robots@.take(i as int + 1).drop_last() =~= turn.robots@.take(i as int));
        assert(turn.robots@.take(i as int + 1).last() == turn.robots@[i as int]);
        let r = &turn.robots[i];
        assert(r.wf());
        if r.health > 0 && chebyshev(p, r.pos) <= 1 {
            n = n + 1;
            if is_big_threat(r.kind) {
                big = true;
            }
        }
        i += 1;
    }
    assert(turn.robots@.take(turn.robots@.len() as int) =~= turn.robots@);
    n >= 2 || big
}

/// The item duty, burning the order it picks.
fn item_duty(turn: &Turn, state: &mut BotState, role: &Unit) -> (r: Option<RoleCommand>)
    requires
        turn.wf(),
        role.wf(),
        old(state).wf(),
    ensures
        r == spec_item_duty(turn, old(state), *role),
        duty_state(turn, old(state), final(state), *role),
        final(state).wf(),
{
    match night_mend_target(turn, role) {
        Some(p) => return Some(RoleCommand::UseAt(Item::WallFixer, p)),
        None => {},
    }
    match burn_summon_order(state, role) {
        Some(cmd) => return Some(cmd),
        None => {},
    }
    if role.count_item(Item::Bomb) > 0 {
        match bomb_impact(turn) {
            Some(impact) => {
                proof {
                    lemma_filter_robots_wf(turn.robots@, crate::brain::combat::bomb_pred());
                    lemma_first_max_inner(crate::brain::combat::bomb_targets(turn),
                        |r: Robot| crate::brain::combat::bomb_sum(turn, r.pos, crate::brain::combat::bomb_targets(turn)));
                }
                if bomb_worth_at(turn, impact) {
                    return Some(RoleCommand::UseAt(Item::Bomb, impact));
                }
            },
            None => {},
        }
    }
    if role.count_item(Item::DizzyWeapon) > 0 {
        match dizzy_impact(turn) {
            Some(impact) => return Some(RoleCommand::UseAt(Item::DizzyWeapon, impact)),
            None => {},
        }
    }
    None
}

/// What the repair chain does after the shelter walk: the voucher errand,
/// then the item duty.
pub open spec fn repair_tail(turn: &Turn, role: Unit, s0: &BotState, s1: &BotState, c0: Seq<Pos>, c1: Seq<Pos>,
    p0: Plan, p1: Plan) -> bool {
    let duty = c1 == c0 && duty_state(turn, s0, s1, role) && match spec_item_duty(turn, s0, role) {
        Some(c) => plan_pushed(p0, p1, role.id, c),
        None => p1 == p0,
    };
    match voucher_job(turn, role) {
        Some((v, t)) => if cheb(role.pos, t) <= 1 {
            c1 == c0 && state_kept(s0, s1) && plan_pushed(p0, p1, role.id, RoleCommand::UseAt(v, t))
        } else {
            ||| (exists|cmd: RoleCommand| #[trigger] plan_pushed(p0, p1, role.id, cmd)
                    && walk_result(turn, role, spec_neighbours(t).filter(land_pred(turn)), c0, c1, Some(cmd))
                    && state_kept(s0, s1))
            ||| (walk_result(turn, role, spec_neighbours(t).filter(land_pred(turn)), c0, c0, None) && duty)
        },
        None => duty,
    }
}

/// What the shelter walk does, pushed or not.
pub open spec fn shelter_outcome(turn: &Turn, role: Unit, c0: Seq<Pos>, c1: Seq<Pos>, p0: Plan, p1: Plan, r: bool) -> bool {
    let stands = spec_interior_cells(turn);
    let sorted = sort_far(turn, stands);
    let b = walk_blocked(turn, role.id, c0);
    &&& (stands.len() == 0 || stands.contains(role.pos)) ==> !r && p1 == p0 && c1 == c0
    &&& !r ==> p1 == p0 && c1 == c0
    &&& r ==> exists|cmd: RoleCommand| #[trigger] plan_pushed(p0, p1, role.id, cmd)
        && (walk_result(turn, role, sorted, c0, c1, Some(cmd))
            || (c1 == c0 && walk_result(turn, role, sorted, c0, c0, None) && escape_result(turn, role, sorted, Some(cmd))))
    &&& (stands.len() > 0 && !stands.contains(role.pos) && !r) ==>
        walk_result(turn, role, sorted, c0, c0, None) && escape_result(turn, role, sorted, None)
    &&& (stands.len() > 0 && !stands.contains(role.pos) && in_grid(turn, role.pos)
        && reaches(turn, b, role.pos, sorted.filter(usable_pred(turn, role.pos, b))))
        ==> r && exists|cmd: RoleCommand| #[trigger] plan_pushed(p0, p1, role.id, cmd)
            && walk_result(turn, role, sorted, c0, c1, Some(cmd))
}

/// The repair chain of a role with nothing better to do at night: shelter
/// inside the ring, then the base vouchers, then the item duty.
pub open spec fn repair_outcome(turn: &Turn, role: Unit, s0: &BotState, s1: &BotState, c0: Seq<Pos>, c1: Seq<Pos>,
    p0: Plan, p1: Plan) -> bool {
    ||| (shelter_outcome(turn, role, c0, c1, p0, p1, true) && state_kept(s0, s1))
    ||| (shelter_outcome(turn, role, c0, c0, p0, p0, false) && repair_tail(turn, role, s0, s1, c0, c1, p0, p1))
}

/// Shelter, then the voucher errand, then the item duty.
pub fn night_repair(turn: &Turn, state: &mut BotState, role: &Unit, claimed: &mut Vec<Pos>, plan: &mut Plan)
    requires
        turn.wf(),
        role.wf(),
        old(state).wf(),
    ensures
        distinct_ids(old(plan).commands@) ==> distinct_ids(final(plan).commands@),
        repair_outcome(turn, *role, old(state), final(state), old(claimed)@, final(claimed)@, *old(plan), *final(plan)),
        final(state).wf(),
{
    if shelter(turn, role, claimed, plan) {
        return;
    }
    let ghost c0 = claimed@;
    let ghost p0 = *plan;
    match voucher_flow(turn, role, claimed) {
        Some(cmd) => {
            plan.push(role.id, cmd);
            assert(plan_pushed(p0, *plan, role.id, cmd));
            return;
        },
        None => {},
    }
    match item_duty(turn, state, role) {
        Some(cmd) => {
            plan.push(role.id, cmd);
        },
        None => {},
    }
}

/// The task branch of the night: a pioneer in a running session carrying no
/// repair kit keeps working its task.
pub open spec fn works_task_tonight(state: &BotState, role: Unit) -> bool {
    role.kind == UnitKind::Pioneer && state.task_active && role.spec_count(Item::WallFixer) == 0
}

/// `p1` is `p0` with the task runner's command, if it has one.
pub open spec fn task_pushed(p0: Plan, p1: Plan, id: i64, task_cmd: Option<RoleCommand>) -> bool {
    match task_cmd {
        Some(c) => plan_pushed(p0, p1, id, c),
        None => p1 == p0,
    }
}

/// What a spare controller's night round does.
pub open spec fn spare_round(turn: &Turn, role: Unit, task_cmd: Option<RoleCommand>, s0: &BotState, s1: &BotState,
    c0: Seq<Pos>, c1: Seq<Pos>, p0: Plan, p1: Plan) -> bool {
    if works_task_tonight(s0, role) {
        state_kept(s0, s1) && c1 == c0 && task_pushed(p0, p1, role.id, task_cmd)
    } else {
        match spec_night_medicine(turn, role) {
            Some(c) => state_kept(s0, s1) && c1 == c0 && plan_pushed(p0, p1, role.id, c),
            None => repair_outcome(turn, role, s0, s1, c0, c1, p0, p1),
        }
    }
}

/// The spare's night chain. A pioneer in a running task session without a
/// repair kit keeps working the task (`task_cmd` is what the task runner
/// asks of it this round); anyone else heals, shelters inside the ring,
/// spends the base vouchers, mends the wall and throws the items.
pub fn plan_spare(turn: &Turn, state: &mut BotState, role: &Unit, claimed: &mut Vec<Pos>, plan: &mut Plan,
    task_cmd: Option<RoleCommand>)
    requires
        turn.wf(),
        role.wf(),
        old(state).wf(),
    ensures
        distinct_ids(old(plan).commands@) ==> distinct_ids(final(plan).commands@),
        final(state).wf(),
        spare_round(turn, *role, task_cmd, old(state), final(state), old(claimed)@, final(claimed)@, *old(plan), *final(plan)),
        works_task_tonight(old(state), *role) ==> state_kept(old(state), final(state))
            && final(claimed)@ == old(claimed)@ && task_pushed(*old(plan), *final(plan), role.id, task_cmd),
        !works_task_tonight(old(state), *role) ==> match spec_night_medicine(turn, *role) {
            Some(c) => state_kept(old(state), final(state)) && final(claimed)@ == old(claimed)@
                && plan_pushed(*old(plan), *final(plan), role.id, c),
            None => repair_outcome(turn, *role, old(state), final(state), old(claimed)@, final(claimed)@,
                *old(plan), *final(plan)),
        },
{
    let repair_duty = role.count_item(Item::WallFixer) > 0;
    if role.kind == UnitKind::Pioneer && state.task_active && !repair_duty {
        match task_cmd {
            Some(cmd) => plan.push(role.id, cmd),
            None => {},
        }
        return;
    }
    match night_medicine(turn, role) {
        Some(cmd) => {
            plan.push(role.id, cmd);
            return;
        },
        None => {},
    }
    night_repair(turn, state, role, claimed, plan);
}

} // verus!
