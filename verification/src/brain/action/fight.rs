//! Fight: the survival predicates the role mainlines share — the withdrawal
//! rule that keeps a wounded controller off a gun it cannot hold, the night
//! potion, the reload-round mend and the hostile-wave predicate every night
//! chain reads.

use vstd::prelude::*;
use crate::model::{Pos, Turn, Unit, UnitKind, Item, spec_max_hp, pos_ok, is_controllable};
use crate::state::BotState;
use crate::protocol::RoleCommand;
use crate::brain::combat::{robot_near, any_robot_near, live_robot, spec_night_mend_target, night_mend_target};

verus! {

/// A robot inside this many cells of a role can reach it this round or the
/// next.
pub const THREAT_RADIUS: i32 = 3;

/// Max HP in tenths below which a controller with no Medicine breaks contact
/// instead of holding its post.
pub const WITHDRAW_HEALTH_TENTHS: i64 = 3;

/// A live robot stands within `THREAT_RADIUS` of `p`.
pub open spec fn threatened_at(turn: &Turn, p: Pos) -> bool {
    robot_near(turn, p, THREAT_RADIUS + 1)
}

pub open spec fn spec_withdrawing(turn: &Turn, role: Unit) -> bool {
    &&& role.spec_count(Item::Medicine) == 0
    &&& spec_max_hp(role.kind) matches Some(m)
    &&& role.health * 10 < m * WITHDRAW_HEALTH_TENTHS
    &&& threatened_at(turn, role.pos)
}

/// Is this controller one the night's withdrawal rule pulls off its gun?
/// Only a controllable role, critically wounded (below 30% of its maximum),
/// carrying no Medicine, with a live robot within the threat radius.
pub fn withdrawing(turn: &Turn, role: &Unit) -> (r: bool)
    requires
        turn.wf(),
        role.wf(),
    ensures
        r == spec_withdrawing(turn, *role),
{
    if role.count_item(Item::Medicine) > 0 {
        return false;
    }
    let max_hp: i64 = match role.kind {
        crate::model::UnitKind::Worker => 220,
        crate::model::UnitKind::Pioneer => 200,
        _ => return false,
    };
    if role.health * 10 >= max_hp * WITHDRAW_HEALTH_TENTHS {
        return false;
    }
    proof {
        assert(pos_ok(role.pos));
    }
    any_robot_near(turn, role.pos, THREAT_RADIUS + 1)
}

pub open spec fn spec_hostile_wave(turn: &Turn) -> bool {
    exists|i: int| 0 <= i < turn.robots@.len() && live_robot(#[trigger] turn.robots@[i])
        && turn.robots@[i].target_team == turn.team_type
}

/// Is a hostile wave on the board: a live robot whose target is our team?
pub fn hostile_wave(turn: &Turn) -> (r: bool)
    ensures
        r == spec_hostile_wave(turn),
{
    let mut i: usize = 0;
    while i < turn.robots.len()
        invariant
            i <= turn.robots@.len(),
            forall|k: int| 0 <= k < i ==> !(live_robot(#[trigger] turn.robots@[k])
                && turn.robots@[k].target_team == turn.team_type),
        decreases turn.robots@.len() - i,
    {
        if turn.robots[i].health > 0 && turn.robots[i].target_team == turn.team_type {
            return true;
        }
        i += 1;
    }
    false
}

pub open spec fn spec_night_medicine(turn: &Turn, role: Unit) -> Option<RoleCommand> {
    if role.spec_count(Item::Medicine) < 1 {
        None
    } else {
        match spec_max_hp(role.kind) {
            None => None,
            Some(m) => {
                let threshold = if threatened_at(turn, role.pos) { 7int } else { 3int };
                if role.health * 10 < m * threshold { Some(RoleCommand::Use(Item::Medicine)) } else { None }
            },
        }
    }
}

/// Heal at night while the role is still worth saving: drink below 70% of
/// the maximum when a robot is within the threat radius, below 30% otherwise.
pub fn night_medicine(turn: &Turn, role: &Unit) -> (r: Option<RoleCommand>)
    requires
        turn.wf(),
        role.wf(),
    ensures
        r == spec_night_medicine(turn, *role),
{
    if role.count_item(Item::Medicine) < 1 {
        return None;
    }
    let max_hp: i64 = match role.kind {
        crate::model::UnitKind::Worker => 220,
        crate::model::UnitKind::Pioneer => 200,
        _ => return None,
    };
    let threatened = any_robot_near(turn, role.pos, THREAT_RADIUS + 1);
    let threshold: i64 = if threatened { 7 } else { 3 };
    if role.health * 10 < max_hp * threshold {
        return Some(RoleCommand::Use(Item::Medicine));
    }
    None
}

/// Mend the weakest wall beside the operator on a round its gun cannot fire:
/// the night's mend target, with a WallFixer.
pub fn cooldown_repair(turn: &Turn, role: &Unit) -> (r: Option<RoleCommand>)
    requires
        turn.wf(),
        role.wf(),
    ensures
        r == match spec_night_mend_target(turn, *role) {
            Some(p) => Some(RoleCommand::UseAt(Item::WallFixer, p)),
            None => None,
        },
{
    match night_mend_target(turn, role) {
        Some(p) => Some(RoleCommand::UseAt(Item::WallFixer, p)),
        None => None,
    }
}

// ---------------------------------------------------------------------------
// The withdrawal holdout
// ---------------------------------------------------------------------------

/// Quiet rounds after which a held-out controller may man a gun again.
pub const WITHDRAW_HYSTERESIS_ROUNDS: i64 = 5;

/// Index of the first entry of `s` for `id`.
pub open spec fn first_id(s: Seq<(i64, i64)>, id: i64) -> Option<int>
    decreases s.len(),
{
    if s.len() == 0 {
        None
    } else if s[0].0 == id {
        Some(0)
    } else {
        match first_id(s.drop_first(), id) {
            Some(i) => Some(i + 1),
            None => None,
        }
    }
}

pub proof fn lemma_first_id(s: Seq<(i64, i64)>, id: i64)
    ensures
        match first_id(s, id) {
            Some(i) => 0 <= i < s.len() && s[i].0 == id && forall|j: int| 0 <= j < i ==> (#[trigger] s[j]).0 != id,
            None => forall|j: int| 0 <= j < s.len() ==> (#[trigger] s[j]).0 != id,
        },
    decreases s.len(),
{
    if s.len() > 0 && s[0].0 != id {
        lemma_first_id(s.drop_first(), id);
        match first_id(s.drop_first(), id) {
            Some(i) => {
                assert forall|j: int| 0 <= j < i + 1 implies (#[trigger] s[j]).0 != id by {
                    if j > 0 { assert(s[j] == s.drop_first()[j - 1]); }
                }
            },
            None => {
                assert forall|j: int| 0 <= j < s.len() implies (#[trigger] s[j]).0 != id by {
                    if j > 0 { assert(s[j] == s.drop_first()[j - 1]); }
                }
            },
        }
    }
}

/// The round recorded for `id`, if any.
pub open spec fn last_of(s: Seq<(i64, i64)>, id: i64) -> Option<i64> {
    match first_id(s, id) {
        Some(i) => Some(s[i].1),
        None => None,
    }
}

/// Record `round` for `id`: its entry updated, or a new one at the end.
pub open spec fn set_last(s: Seq<(i64, i64)>, id: i64, round: i64) -> Seq<(i64, i64)> {
    match first_id(s, id) {
        Some(i) => s.update(i, (id, round)),
        None => s.push((id, round)),
    }
}

pub open spec fn with_id(h: Seq<i64>, id: i64) -> Seq<i64> {
    if h.contains(id) { h } else { h.push(id) }
}

pub open spec fn not_id(id: i64) -> spec_fn(i64) -> bool {
    |x: i64| x != id
}

pub open spec fn without_id(h: Seq<i64>, id: i64) -> Seq<i64> {
    h.filter(not_id(id))
}

/// One controller's turn of the holdout rule: note the threat, hold a
/// withdrawing controller out, and release a held one once it has healed
/// above the line or the board has been quiet long enough.
pub open spec fn holdout_step(turn: &Turn, last: Seq<(i64, i64)>, hold: Seq<i64>, role: Unit)
    -> (Seq<(i64, i64)>, Seq<i64>) {
    if !is_controllable(role) {
        (last, hold)
    } else {
        let last1 = if threatened_at(turn, role.pos) { set_last(last, role.id, turn.round_no) } else { last };
        let hold1 = if spec_withdrawing(turn, role) { with_id(hold, role.id) } else { hold };
        if hold1.contains(role.id) {
            let recovered = spec_max_hp(role.kind) matches Some(m) && role.health * 10 >= m * WITHDRAW_HEALTH_TENTHS;
            let calm = match last_of(last1, role.id) {
                Some(l) => turn.round_no - l >= WITHDRAW_HYSTERESIS_ROUNDS,
                None => true,
            };
            if recovered || calm { (last1, without_id(hold1, role.id)) } else { (last1, hold1) }
        } else {
            (last1, hold1)
        }
    }
}

pub open spec fn holdout_fold(turn: &Turn, s: Seq<Unit>, last: Seq<(i64, i64)>, hold: Seq<i64>)
    -> (Seq<(i64, i64)>, Seq<i64>)
    decreases s.len(),
{
    if s.len() == 0 {
        (last, hold)
    } else {
        let (l, h) = holdout_fold(turn, s.drop_last(), last, hold);
        holdout_step(turn, l, h, s.last())
    }
}

fn set_last_round(v: &mut Vec<(i64, i64)>, id: i64, round: i64)
    ensures
        final(v)@ == set_last(old(v)@, id, round),
{
    proof {
        lemma_first_id(v@, id);
    }
    let ghost s0 = v@;
    let mut i: usize = 0;
    while i < v.len()
        invariant
            i <= v@.len(),
            v@ == s0,
            s0 == old(v)@,
            forall|j: int| 0 <= j < i ==> (#[trigger] v@[j]).0 != id,
        decreases v@.len() - i,
    {
        if v[i].0 == id {
            proof {
                lemma_first_id(s0, id);
                match first_id(s0, id) {
                    Some(k) => { if k < i { } else if k > i { } },
                    None => {},
                }
            }
            v.set(i, (id, round));
            return;
        }
        i += 1;
    }
    proof {
        lemma_first_id(s0, id);
        match first_id(s0, id) {
            Some(k) => { assert(s0[k].0 == id); },
            None => {},
        }
    }
    v.push((id, round));
}

fn last_round_of(v: &Vec<(i64, i64)>, id: i64) -> (r: Option<i64>)
    ensures
        r == last_of(v@, id),
{
    proof {
        lemma_first_id(v@, id);
    }
    let mut i: usize = 0;
    while i < v.len()
        invariant
            i <= v@.len(),
            forall|j: int| 0 <= j < i ==> (#[trigger] v@[j]).0 != id,
        decreases v@.len() - i,
    {
        if v[i].0 == id {
            proof {
                lemma_first_id(v@, id);
                match first_id(v@, id) {
                    Some(k) => { if k < i { } else if k > i { } },
                    None => {},
                }
            }
            return Some(v[i].1);
        }
        i += 1;
    }
    proof {
        lemma_first_id(v@, id);
        match first_id(v@, id) {
            Some(k) => { assert(v@[k].0 == id); },
            None => {},
        }
    }
    None
}

fn drop_id(v: &Vec<i64>, id: i64) -> (r: Vec<i64>)
    ensures
        r@ == without_id(v@, id),
{
    let mut out: Vec<i64> = Vec::new();
    let mut i: usize = 0;
    while i < v.len()
        invariant
            i <= v@.len(),
            out@ == v@.take(i as int).filter(not_id(id)),
        decreases v@.len() - i,
    {
        proof {
            crate::model::lemma_filter_step(v@, i as int, not_id(id));
        }
        if v[i] != id {
            out.push(v[i]);
        }
        i += 1;
    }
    assert(v@.take(v@.len() as int) =~= v@);
    out
}

fn has_id(v: &Vec<i64>, id: i64) -> (r: bool)
    ensures
        r == v@.contains(id),
{
    let mut i: usize = 0;
    while i < v.len()
        invariant
            i <= v@.len(),
            forall|j: int| 0 <= j < i ==> v@[j] != id,
        decreases v@.len() - i,
    {
        if v[i] == id {
            assert(v@[i as int] == id);
            return true;
        }
        i += 1;
    }
    false
}

/// Refresh the withdrawal holdout for this round: a controller enters it
/// when the withdrawal rule owns it, and leaves it only healed above the
/// line or after `WITHDRAW_HYSTERESIS_ROUNDS` quiet rounds.
pub fn update_withdraw_holdout(turn: &Turn, state: &mut BotState)
    requires
        turn.wf(),
        old(state).wf(),
    ensures
        final(state).wf(),
        (final(state).withdraw_last_threat@, final(state).withdraw_holdout@)
            == holdout_fold(turn, turn.ours@, old(state).withdraw_last_threat@, old(state).withdraw_holdout@),
        *final(state) == (BotState {
            withdraw_last_threat: final(state).withdraw_last_threat,
            withdraw_holdout: final(state).withdraw_holdout,
            ..*old(state)
        }),
{
    let mut i: usize = 0;
    while i < turn.ours.len()
        invariant
            i <= turn.ours@.len(),
            turn.wf(),
            old(state).wf(),
            *state == (BotState {
                withdraw_last_threat: state.withdraw_last_threat,
                withdraw_holdout: state.withdraw_holdout,
                ..*old(state)
            }),
            (state.withdraw_last_threat@, state.withdraw_holdout@)
                == holdout_fold(turn, turn.ours@.take(i as int), old(state).withdraw_last_threat@, old(state).withdraw_holdout@),
        decreases turn.ours@.len() - i,
    {
        assert(turn.ours@.take(i as int + 1).drop_last() =~= turn.ours@.take(i as int));
        assert(turn.ours@.take(i as int + 1).last() == turn.ours@[i as int]);
        let role = &turn.ours[i];
        assert(role.wf());
        if (role.kind == UnitKind::Worker || role.kind == UnitKind::Pioneer) && role.health > 0 {
            if any_robot_near(turn, role.pos, THREAT_RADIUS + 1) {
                set_last_round(&mut state.withdraw_last_threat, role.id, turn.round_no);
            }
            if withdrawing(turn, role) && !has_id(&state.withdraw_holdout, role.id) {
                state.withdraw_holdout.push(role.id);
            }
            if has_id(&state.withdraw_holdout, role.id) {
                let max_hp: i64 = if role.kind == UnitKind::Worker { 220 } else { 200 };
                let recovered = role.health * 10 >= max_hp * WITHDRAW_HEALTH_TENTHS;
                let calm = match last_round_of(&state.withdraw_last_threat, role.id) {
                    Some(l) => (turn.round_no as i128) - (l as i128) >= WITHDRAW_HYSTERESIS_ROUNDS as i128,
                    None => true,
                };
                if recovered || calm {
                    state.withdraw_holdout = drop_id(&state.withdraw_holdout, role.id);
                }
            }
        }
        i += 1;
    }
    assert(turn.ours@.take(turn.ours@.len() as int) =~= turn.ours@);
}

} // verus!
