//! The build and repair executors: lay a wall or a tower from a stand beside
//! the site, and mend the weakest breach with a wall fixer.

use vstd::prelude::*;
use crate::model::{Pos, Turn, Unit, UnitKind, Item, cheb, chebyshev, pos_ok, pos_inner, all_pos_ok,
    spec_neighbours, is_live_wall};
use crate::protocol::RoleCommand;
use crate::brain::{walk_toward, walk_result, stand_cells, land_pred};
use crate::brain::combat::{spec_wall_max_hp, wall_max_hp};

verus! {

/// What `build_or_walk` does: build when the site is beside the role and on
/// land, else walk to a stand beside it.
pub open spec fn build_or_walk_result(turn: &Turn, role: Unit, target: Pos, kind: UnitKind,
    before: Seq<Pos>, after: Seq<Pos>, r: Option<RoleCommand>) -> bool {
    if cheb(role.pos, target) == 1 && turn.spec_is_land(target) {
        r == Some(RoleCommand::Build(target, kind)) && after == before
    } else {
        walk_result(turn, role, spec_neighbours(target).filter(land_pred(turn)), before, after, r)
    }
}

/// Build `kind` at `target` when adjacent, else walk toward it.
pub fn build_or_walk(turn: &Turn, role: &Unit, target: Pos, kind: UnitKind, claimed: &mut Vec<Pos>)
    -> (r: Option<RoleCommand>)
    requires
        turn.wf(),
        role.wf(),
        pos_inner(target),
    ensures
        build_or_walk_result(turn, *role, target, kind, old(claimed)@, final(claimed)@, r),
{
    if chebyshev(role.pos, target) == 1 && turn.is_land(target) {
        return Some(RoleCommand::Build(target, kind));
    }
    let stands = stand_cells(turn, target);
    walk_toward(turn, role, &stands, claimed)
}

/// A wall fixer is worth spending on this wall.
pub open spec fn fixable(w: Unit) -> bool {
    is_live_wall(w) && w.health < spec_wall_max_hp(w.level)
}

/// The wall stands next to one of the ring's openings.
pub open spec fn beside_gap(gaps: Seq<Pos>, p: Pos) -> bool {
    exists|i: int| 0 <= i < gaps.len() && cheb(#[trigger] gaps[i], p) <= 1
}

pub open spec fn gap_rank(gaps: Seq<Pos>, p: Pos) -> int {
    if beside_gap(gaps, p) { 0 } else { 1 }
}

/// The repair order: walls beside an opening first, then the weakest, then
/// the nearest, then by coordinates.
pub open spec fn fix_lt(gaps: Seq<Pos>, here: Pos, a: Unit, b: Unit) -> bool {
    let (ga, gb) = (gap_rank(gaps, a.pos), gap_rank(gaps, b.pos));
    let (da, db) = (cheb(here, a.pos), cheb(here, b.pos));
    ga < gb || (ga == gb && (a.health < b.health || (a.health == b.health && (da < db
        || (da == db && (a.pos.x < b.pos.x || (a.pos.x == b.pos.x && a.pos.y < b.pos.y)))))))
}

/// The first fixable wall of `s` that no later one beats in the repair order.
pub open spec fn first_min_fix(s: Seq<Unit>, gaps: Seq<Pos>, here: Pos) -> Option<Unit>
    decreases s.len(),
{
    if s.len() == 0 {
        None
    } else {
        let rest = first_min_fix(s.drop_last(), gaps, here);
        if !fixable(s.last()) {
            rest
        } else {
            match rest {
                None => Some(s.last()),
                Some(b) => if fix_lt(gaps, here, s.last(), b) { Some(s.last()) } else { rest },
            }
        }
    }
}

proof fn lemma_fix_lt_trans(gaps: Seq<Pos>, here: Pos, a: Unit, b: Unit, c: Unit)
    requires
        fix_lt(gaps, here, a, b),
        fix_lt(gaps, here, b, c),
    ensures
        fix_lt(gaps, here, a, c),
{
}

/// The repair pick is a fixable wall of ours that no other fixable wall
/// beats in the repair order: nearest a gap, then the least health, then
/// the shortest walk, then the lowest (x, y). With no fixable wall there is
/// no pick.
pub proof fn law_fix_pick_is_least(s: Seq<Unit>, gaps: Seq<Pos>, here: Pos)
    ensures
        first_min_fix(s, gaps, here) matches Some(w) ==> fixable(w) && s.contains(w)
            && forall|k: int| 0 <= k < s.len() && fixable(#[trigger] s[k]) ==> !fix_lt(gaps, here, s[k], w),
        first_min_fix(s, gaps, here) is None ==> forall|k: int| 0 <= k < s.len() ==> !fixable(#[trigger] s[k]),
    decreases s.len(),
{
    if s.len() > 0 {
        let t = s.drop_last();
        law_fix_pick_is_least(t, gaps, here);
        let rest = first_min_fix(t, gaps, here);
        let last = s.last();
        assert(s[s.len() - 1] == last);
        assert forall|k: int| 0 <= k < t.len() implies #[trigger] s[k] == t[k] by {}
        match rest {
            None => {
                if fixable(last) {
                    assert forall|k: int| 0 <= k < s.len() && fixable(#[trigger] s[k]) implies !fix_lt(gaps, here, s[k], last) by {
                        if k < t.len() {
                            assert(!fixable(t[k]));
                        }
                    }
                } else {
                    assert forall|k: int| 0 <= k < s.len() implies !fixable(#[trigger] s[k]) by {
                        if k < t.len() {
                            assert(!fixable(t[k]));
                        }
                    }
                }
            },
            Some(b) => {
                let j = choose|j: int| 0 <= j < t.len() && t[j] == b;
                assert(s[j] == b);
                if fixable(last) && fix_lt(gaps, here, last, b) {
                    assert forall|k: int| 0 <= k < s.len() && fixable(#[trigger] s[k]) implies !fix_lt(gaps, here, s[k], last) by {
                        if k < t.len() {
                            assert(fixable(t[k]));
                            assert(!fix_lt(gaps, here, t[k], b));
                            if fix_lt(gaps, here, s[k], last) {
                                lemma_fix_lt_trans(gaps, here, s[k], last, b);
                            }
                        }
                    }
                } else {
                    assert forall|k: int| 0 <= k < s.len() && fixable(#[trigger] s[k]) implies !fix_lt(gaps, here, s[k], b) by {
                        if k < t.len() {
                            assert(fixable(t[k]));
                        }
                    }
                }
            },
        }
    }
}

pub open spec fn spec_fix_target(turn: &Turn, role: Unit, gaps: Seq<Pos>) -> Option<Pos> {
    match first_min_fix(turn.ours@, gaps, role.pos) {
        Some(w) => Some(w.pos),
        None => None,
    }
}

fn is_beside_gap(gaps: &[Pos], p: Pos) -> (r: bool)
    requires
        all_pos_ok(gaps@),
        pos_ok(p),
    ensures
        r == beside_gap(gaps@, p),
{
    let mut i: usize = 0;
    while i < gaps.len()
        invariant
            i <= gaps@.len(),
            all_pos_ok(gaps@),
            pos_ok(p),
            forall|k: int| 0 <= k < i ==> cheb(#[trigger] gaps@[k], p) > 1,
        decreases gaps@.len() - i,
    {
        if chebyshev(gaps[i], p) <= 1 {
            return true;
        }
        i += 1;
    }
    false
}

/// The damaged wall to mend first: one beside an opening of the ring before
/// any other, then the weakest, the nearest, and the lowest coordinates.
pub fn repair_target(turn: &Turn, role: &Unit, wall_gaps: &[Pos]) -> (r: Option<Pos>)
    requires
        turn.wf(),
        role.wf(),
        all_pos_ok(wall_gaps@),
    ensures
        r == spec_fix_target(turn, *role, wall_gaps@),
        r matches Some(p) ==> pos_inner(p),
{
    let mut best: Option<usize> = None;
    let mut i: usize = 0;
    while i < turn.ours.len()
        invariant
            i <= turn.ours@.len(),
            turn.wf(),
            role.wf(),
            all_pos_ok(wall_gaps@),
            match best {
                Some(k) => k < i && first_min_fix(turn.ours@.take(i as int), wall_gaps@, role.pos)
                    == Some(turn.ours@[k as int]),
                None => first_min_fix(turn.ours@.take(i as int), wall_gaps@, role.pos) is None,
            },
        decreases turn.ours@.len() - i,
    {
        assert(turn.ours@.take(i as int + 1).drop_last() =~= turn.ours@.take(i as int));
        assert(turn.ours@.take(i as int + 1).last() == turn.ours@[i as int]);
        let u = &turn.ours[i];
        assert(u.wf());
        if u.kind == UnitKind::Wall && u.health > 0 && u.health < wall_max_hp(u.level) {
            let replace = match best {
                None => true,
                Some(k) => {
                    let b = &turn.ours[k];
                    assert(b.wf());
                    let ga: i32 = if is_beside_gap(wall_gaps, u.pos) { 0 } else { 1 };
                    let gb: i32 = if is_beside_gap(wall_gaps, b.pos) { 0 } else { 1 };
                    let da = chebyshev(role.pos, u.pos);
                    let db = chebyshev(role.pos, b.pos);
                    ga < gb || (ga == gb && (u.health < b.health || (u.health == b.health && (da < db
                        || (da == db && (u.pos.x < b.pos.x || (u.pos.x == b.pos.x && u.pos.y < b.pos.y)))))))
                },
            };
            if replace {
                best = Some(i);
            }
        }
        i += 1;
    }
    assert(turn.ours@.take(turn.ours@.len() as int) =~= turn.ours@);
    match best {
        Some(k) => {
            assert(turn.ours@[k as int].wf());
            Some(turn.ours[k].pos)
        },
        None => None,
    }
}

/// What the repair executor does this round.
pub open spec fn repair_flow_result(turn: &Turn, role: Unit, gaps: Seq<Pos>, before: Seq<Pos>,
    after: Seq<Pos>, r: Option<RoleCommand>) -> bool {
    if role.spec_count(Item::WallFixer) == 0 {
        r is None && after == before
    } else {
        match spec_fix_target(turn, role, gaps) {
            None => r is None && after == before,
            Some(t) => if cheb(role.pos, t) == 1 {
                r == Some(RoleCommand::UseAt(Item::WallFixer, t)) && after == before
            } else {
                walk_result(turn, role, spec_neighbours(t).filter(land_pred(turn)), before, after, r)
            },
        }
    }
}

/// Mend the wall `repair_target` picks with a carried wall fixer, walking to
/// it when it is not adjacent.
pub fn repair_flow(turn: &Turn, role: &Unit, wall_gaps: &[Pos], claimed: &mut Vec<Pos>) -> (r: Option<RoleCommand>)
    requires
        turn.wf(),
        role.wf(),
        all_pos_ok(wall_gaps@),
    ensures
        repair_flow_result(turn, *role, wall_gaps@, old(claimed)@, final(claimed)@, r),
{
    if role.count_item(Item::WallFixer) == 0 {
        return None;
    }
    let target = match repair_target(turn, role, wall_gaps) {
        Some(t) => t,
        None => return None,
    };
    if chebyshev(role.pos, target) == 1 {
        return Some(RoleCommand::UseAt(Item::WallFixer, target));
    }
    let stands = stand_cells(turn, target);
    walk_toward(turn, role, &stands, claimed)
}

} // verus!
