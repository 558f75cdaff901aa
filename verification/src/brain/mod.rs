//! Decision logic and shared helpers: the round plan, walking, and the
//! escape hatches a role uses when our own ring has shut it out.

use vstd::prelude::*;
use crate::model::{Pos, Turn, Unit, UnitKind, DAY_ROUNDS, cheb, fp_dist, chebyshev, contains_pos,
    neighbours, spec_neighbours, pos_inner, pos_ok, all_pos_ok, spec_blocked_for, wall_pos_list,
    extend_cells, lemma_filter_step};
use crate::path::{step_toward_stands, passable, reaches, leads_to, in_grid};
use crate::protocol::RoleCommand;

pub mod action;
pub mod role;
pub mod day;
pub mod combat;
pub mod news;
pub mod coach;
pub mod route;
pub mod economy;
pub mod night;
pub mod orchestrate;
pub mod score;

verus! {

/// Everything the planners emit in one round.
#[derive(Debug)]
pub struct Plan {
    /// Commands per role id; the first command pushed for a role wins.
    pub commands: Vec<(i64, RoleCommand)>,
    pub prompt: Option<String>,
    pub execute_cmd: Option<String>,
}

pub open spec fn has_command(s: Seq<(i64, RoleCommand)>, id: i64) -> bool {
    exists|i: int| 0 <= i < s.len() && (#[trigger] s[i]).0 == id
}

/// No role holds two commands.
pub open spec fn distinct_ids(s: Seq<(i64, RoleCommand)>) -> bool {
    forall|i: int, j: int| 0 <= i < j < s.len() ==> (#[trigger] s[i]).0 != (#[trigger] s[j]).0
}

impl Plan {
    /// An empty plan.
    pub fn new() -> (p: Plan)
        ensures
            p.commands@.len() == 0,
            p.prompt is None,
            p.execute_cmd is None,
    {
        Plan { commands: Vec::new(), prompt: None, execute_cmd: None }
    }

    /// Does some command already stand for this role?
    pub fn has(&self, id: i64) -> (r: bool)
        ensures
            r == has_command(self.commands@, id),
    {
        let mut i: usize = 0;
        while i < self.commands.len()
            invariant
                i <= self.commands@.len(),
                forall|j: int| 0 <= j < i ==> self.commands@[j].0 != id,
            decreases self.commands@.len() - i,
        {
            if self.commands[i].0 == id {
                assert(self.commands@[i as int].0 == id);
                return true;
            }
            i += 1;
        }
        false
    }

    /// First command per role wins (priority = insertion order).
    pub fn push(&mut self, id: i64, cmd: RoleCommand)
        ensures
            has_command(old(self).commands@, id) ==> final(self).commands@ == old(self).commands@,
            !has_command(old(self).commands@, id) ==> final(self).commands@ == old(self).commands@.push((id, cmd)),
            distinct_ids(old(self).commands@) ==> distinct_ids(final(self).commands@),
            final(self).prompt == old(self).prompt,
            final(self).execute_cmd == old(self).execute_cmd,
    {
        let mut i: usize = 0;
        while i < self.commands.len()
            invariant
                i <= self.commands@.len(),
                forall|j: int| 0 <= j < i ==> self.commands@[j].0 != id,
            decreases self.commands@.len() - i,
        {
            if self.commands[i].0 == id {
                assert(self.commands@[i as int].0 == id);
                return;
            }
            i += 1;
        }
        self.commands.push((id, cmd));
    }
}

pub open spec fn spec_survival_score(day: int, fell_day: Option<i64>) -> int {
    match fell_day {
        None => 5 * day * (day + 1),
        Some(fell) => 5 * (fell - 1) * fell,
    }
}

/// `score3`, the survival objective: `Σ 10 × d` over the days the base has
/// stood — a sum, frozen on the day the base fell.
pub fn survival_score(day: i64, fell_day: Option<i64>) -> (s: i64)
    requires
        -1_000_000 <= day <= 1_000_000,
        fell_day matches Some(f) ==> -1_000_000 <= f <= 1_000_000,
    ensures
        s == spec_survival_score(day as int, fell_day),
{
    match fell_day {
        None => {
            assert(-1_000_000_000_000 <= day * (day + 1) <= 2_000_000_000_000) by (nonlinear_arith)
                requires -1_000_000 <= day <= 1_000_000;
            let t = day * (day + 1);
            assert(5 * day * (day + 1) == 5 * t) by (nonlinear_arith)
                requires t == day * (day + 1);
            5 * t
        },
        Some(fell) => {
            assert(-2_000_000_000_000 <= (fell - 1) * fell <= 2_000_000_000_000) by (nonlinear_arith)
                requires -1_000_000 <= fell <= 1_000_000;
            let t = (fell - 1) * fell;
            assert(5 * (fell - 1) * fell == 5 * t) by (nonlinear_arith)
                requires t == (fell - 1) * fell;
            5 * t
        },
    }
}

/// The sum `Σ_{d=1..n} 10·d`.
pub open spec fn ten_day_sum(n: nat) -> int
    decreases n,
{
    if n == 0 { 0 } else { ten_day_sum((n - 1) as nat) + 10 * n }
}

/// The survival score is the running sum of ten points per day stood: with
/// the base standing on day `n` it is `Σ_{d=1..n} 10·d`, and a base that fell
/// on day `f` keeps exactly the sum over the days before `f`.
pub proof fn law_survival_is_a_sum(n: nat, f: nat)
    requires
        1 <= f <= 1_000_000,
        n <= 1_000_000,
    ensures
        spec_survival_score(n as int, None) == ten_day_sum(n),
        spec_survival_score(n as int, Some(f as i64)) == ten_day_sum((f - 1) as nat),
    decreases n + f,
{
    if n > 0 {
        law_survival_is_a_sum((n - 1) as nat, f);
        assert(5 * n * (n + 1) == 5 * (n - 1) * n + 10 * n) by (nonlinear_arith);
    }
    if f == 1 {
        assert(spec_survival_score(n as int, Some(f as i64)) == 0);
    }
    if f > 1 {
        law_survival_is_a_sum(n, (f - 1) as nat);
        assert(spec_survival_score(n as int, Some((f - 1) as i64)) == 5 * (f - 2) * (f - 1));
        assert(5 * (f - 1) * f == 5 * (f - 2) * (f - 1) + 10 * (f - 1)) by (nonlinear_arith);
    }
}

pub open spec fn land_pred(turn: &Turn) -> spec_fn(Pos) -> bool {
    |p: Pos| turn.spec_is_land(p)
}

/// Walkable cells around `target`.
pub fn stand_cells(turn: &Turn, target: Pos) -> (r: Vec<Pos>)
    requires
        pos_inner(target),
    ensures
        r@ == spec_neighbours(target).filter(land_pred(turn)),
        all_pos_ok(r@),
{
    let n = neighbours(target);
    let ghost pred = land_pred(turn);
    let mut out: Vec<Pos> = Vec::new();
    let mut i: usize = 0;
    while i < n.len()
        invariant
            i <= n@.len(),
            n@ == spec_neighbours(target),
            all_pos_ok(n@),
            pred == land_pred(turn),
            out@ == n@.take(i as int).filter(pred),
            all_pos_ok(out@),
        decreases n@.len() - i,
    {
        proof {
            lemma_filter_step(n@, i as int, pred);
        }
        if turn.is_land(n[i]) {
            out.push(n[i]);
        }
        i += 1;
    }
    assert(n@.take(n@.len() as int) =~= n@);
    out
}

/// Can `role` reach any of `stands` from where it is? A role already standing
/// on one counts as reachable; walls, units, robots and the map edge block.
pub fn can_reach_any(turn: &Turn, role: &Unit, stands: &[Pos]) -> (r: bool)
    requires
        turn.wf(),
    ensures
        r == (stands@.contains(role.pos)
            || (in_grid(turn, role.pos) && reaches(turn, spec_blocked_for(turn, role.id), role.pos, stands@))),
{
    if contains_pos(stands, role.pos) {
        return true;
    }
    let blocked = turn.blocked_for(role.id);
    let r = step_toward_stands(turn, role.pos, stands, &blocked);
    proof {
        if r is Some {
            let s = r->0;
            let w = choose|w: Seq<Pos>| #![trigger crate::path::is_walk(turn, blocked@, w), w.last()]
                crate::path::is_walk(turn, blocked@, w) && w[0] == s && stands@.contains(w.last()) && w.last() != role.pos;
            let w2 = seq![role.pos] + w;
            assert(crate::path::is_walk(turn, blocked@, w2)) by {
                assert forall|i: int| 0 < i < w2.len() implies passable(turn, blocked@, #[trigger] w2[i]) && cheb(w2[i - 1], w2[i]) == 1 by {
                    assert(w2[i] == w[i - 1]);
                    if i > 1 { assert(w2[i - 1] == w[i - 2]); }
                }
            }
            assert(w2.last() == w.last());
        }
    }
    r.is_some()
}


/// Cells a role with `id` cannot walk through this round: every other unit
/// and robot, plus the cells teammates already claimed.
pub open spec fn walk_blocked(turn: &Turn, id: i64, claimed: Seq<Pos>) -> Seq<Pos> {
    spec_blocked_for(turn, id) + claimed
}

/// Stand cells a role may still use: its own cell, or a free walkable one.
pub open spec fn usable_pred(turn: &Turn, here: Pos, blocked: Seq<Pos>) -> spec_fn(Pos) -> bool {
    |p: Pos| p == here || (!blocked.contains(p) && turn.spec_is_land(p))
}

/// A step one king-move from `here`, onto a free cell, from which a usable
/// stand can be walked to.
pub open spec fn good_step(turn: &Turn, here: Pos, id: i64, stands: Seq<Pos>, claimed: Seq<Pos>, s: Pos) -> bool {
    let b = walk_blocked(turn, id, claimed);
    &&& cheb(here, s) == 1
    &&& passable(turn, b, s)
    &&& leads_to(turn, b, s, stands.filter(usable_pred(turn, here, b)), here)
}

/// What `walk_toward` promises of its outcome: either a move onto a good
/// step, which is claimed, or nothing claimed and no usable stand in reach.
pub open spec fn walk_result(turn: &Turn, role: Unit, stands: Seq<Pos>, before: Seq<Pos>, after: Seq<Pos>,
    r: Option<RoleCommand>) -> bool {
    match r {
        Some(cmd) => cmd == RoleCommand::Move(after.last())
            && after == before.push(after.last())
            && good_step(turn, role.pos, role.id, stands, before, after.last()),
        None => after == before
            && (in_grid(turn, role.pos) ==> !reaches(turn, walk_blocked(turn, role.id, before), role.pos,
                stands.filter(usable_pred(turn, role.pos, walk_blocked(turn, role.id, before))))),
    }
}

/// `after` is `before` with `cmd` pushed for `id` (the first command of a
/// role wins).
pub open spec fn plan_pushed(before: Plan, after: Plan, id: i64, cmd: RoleCommand) -> bool {
    &&& has_command(before.commands@, id) ==> after.commands@ == before.commands@
    &&& !has_command(before.commands@, id) ==> after.commands@ == before.commands@.push((id, cmd))
    &&& after.prompt == before.prompt
    &&& after.execute_cmd == before.execute_cmd
}

/// The next step for `role` toward any of `stands`, avoiding cells teammates
/// already claimed this round. Returns a move and claims the chosen step; on
/// `None` nothing is claimed and no usable stand can be reached.
pub fn walk_toward(turn: &Turn, role: &Unit, stands: &[Pos], claimed: &mut Vec<Pos>) -> (r: Option<RoleCommand>)
    requires
        turn.wf(),
    ensures
        match r {
            Some(cmd) => cmd == RoleCommand::Move(final(claimed)@.last())
                && final(claimed)@ == old(claimed)@.push(final(claimed)@.last())
                && good_step(turn, role.pos, role.id, stands@, old(claimed)@, final(claimed)@.last()),
            None => final(claimed)@ == old(claimed)@
                && (in_grid(turn, role.pos) ==> !reaches(turn, walk_blocked(turn, role.id, old(claimed)@), role.pos,
                    stands@.filter(usable_pred(turn, role.pos, walk_blocked(turn, role.id, old(claimed)@))))),
        },
{
    let mut blocked = turn.blocked_for(role.id);
    extend_cells(&mut blocked, claimed);
    let ghost pred = usable_pred(turn, role.pos, blocked@);
    let mut usable: Vec<Pos> = Vec::new();
    let mut i: usize = 0;
    while i < stands.len()
        invariant
            i <= stands@.len(),
            pred == usable_pred(turn, role.pos, blocked@),
            usable@ == stands@.take(i as int).filter(pred),
        decreases stands@.len() - i,
    {
        proof {
            lemma_filter_step(stands@, i as int, pred);
        }
        let p = stands[i];
        if p == role.pos || (!contains_pos(&blocked, p) && turn.is_land(p)) {
            usable.push(p);
        }
        i += 1;
    }
    assert(stands@.take(stands@.len() as int) =~= stands@);
    match step_toward_stands(turn, role.pos, &usable, &blocked) {
        Some(step) => {
            claimed.push(step);
            Some(RoleCommand::Move(step))
        },
        None => None,
    }
}

/// Station footprints stay well inside the coordinate range.
pub proof fn lemma_station_cells_within(p: Pos)
    requires
        crate::model::pos_deep(p),
    ensures
        action::geometry::cells_within(crate::model::spec_station_footprint(p)),
        all_pos_ok(crate::model::spec_station_footprint(p)),
{
    let fp = crate::model::spec_station_footprint(p);
    assert forall|i: int| 0 <= i < fp.len() implies pos_ok(#[trigger] fp[i]) by {}
}

pub open spec fn spec_interior_cells(turn: &Turn) -> Seq<Pos> {
    match turn.spec_station() {
        Some(station) => action::geometry::spec_ring_cells(station.spec_footprint(), 1).filter(land_pred(turn)),
        None => Seq::empty(),
    }
}

/// Walkable cells at footprint distance 1 from the station — the band between
/// the base and the radius-2 wall ring — x-major then y, each once. The
/// station's own cells are never offered.
pub fn interior_cells(turn: &Turn) -> (r: Vec<Pos>)
    requires
        turn.wf(),
    ensures
        r@ == spec_interior_cells(turn),
        all_pos_ok(r@),
{
    proof {
        action::base_layout::lemma_station_wf(turn);
    }
    let station = match turn.station() {
        Some(s) => s,
        None => {
            return Vec::new();
        },
    };
    proof {
        lemma_station_cells_within(station.pos);
    }
    let fp = station.footprint();
    let ring = action::geometry::ring_cells(&fp, 1);
    proof {
        action::geometry::lemma_ring_cells_ok(fp@, 1);
    }
    let ghost pred = land_pred(turn);
    let mut out: Vec<Pos> = Vec::new();
    let mut i: usize = 0;
    while i < ring.len()
        invariant
            i <= ring@.len(),
            all_pos_ok(ring@),
            all_pos_ok(out@),
            pred == land_pred(turn),
            out@ == ring@.take(i as int).filter(pred),
        decreases ring@.len() - i,
    {
        proof {
            lemma_filter_step(ring@, i as int, pred);
        }
        if turn.is_land(ring[i]) {
            out.push(ring[i]);
        }
        i += 1;
    }
    assert(ring@.take(ring@.len() as int) =~= ring@);
    out
}

pub open spec fn inner_pred(fp: Seq<Pos>) -> spec_fn(Pos) -> bool {
    |p: Pos| fp_dist(p, fp) <= 1
}

pub open spec fn spec_tower_stand_cells(turn: &Turn, tower_pos: Pos) -> Seq<Pos> {
    let all = spec_neighbours(tower_pos).filter(land_pred(turn));
    match turn.spec_station() {
        None => all,
        Some(station) => {
            let inner = all.filter(inner_pred(station.spec_footprint()));
            if inner.len() == 0 { all } else { inner }
        },
    }
}

/// Walkable cells from which a controller can operate a tower, restricted to
/// the inside of the wall ring (footprint distance at most 1) whenever any
/// such cell exists.
pub fn tower_stand_cells(turn: &Turn, tower_pos: Pos) -> (r: Vec<Pos>)
    requires
        turn.wf(),
        pos_inner(tower_pos),
    ensures
        r@ == spec_tower_stand_cells(turn, tower_pos),
{
    proof {
        action::base_layout::lemma_station_wf(turn);
    }
    let all = stand_cells(turn, tower_pos);
    let station = match turn.station() {
        Some(s) => s,
        None => {
            return all;
        },
    };
    let fp = station.footprint();
    let ghost pred = inner_pred(fp@);
    let mut inner: Vec<Pos> = Vec::new();
    let mut i: usize = 0;
    while i < all.len()
        invariant
            i <= all@.len(),
            all_pos_ok(all@),
            all_pos_ok(fp@),
            pred == inner_pred(fp@),
            inner@ == all@.take(i as int).filter(pred),
        decreases all@.len() - i,
    {
        proof {
            lemma_filter_step(all@, i as int, pred);
        }
        if crate::model::footprint_distance(all[i], &fp) <= 1 {
            inner.push(all[i]);
        }
        i += 1;
    }
    assert(all@.take(all@.len() as int) =~= all@);
    if inner.len() == 0 {
        all
    } else {
        inner
    }
}


/// `(d, x, y)` ordering of cells by distance to the stands, then x, then y.
pub open spec fn key_lt(stands: Seq<Pos>, a: Pos, b: Pos) -> bool {
    let da = fp_dist(a, stands);
    let db = fp_dist(b, stands);
    da < db || (da == db && (a.x < b.x || (a.x == b.x && a.y < b.y)))
}

/// An adjacent wall of ours that is closer to the stands than `here`
/// (`strict`) or no farther from them (not `strict`).
pub open spec fn breakable(turn: &Turn, pos: Pos, stands: Seq<Pos>, here: int, strict: bool, q: Pos) -> bool {
    &&& wall_pos_list(turn.ours@).contains(q)
    &&& cheb(pos, q) == 1
    &&& if strict { fp_dist(q, stands) < here } else { fp_dist(q, stands) <= here }
}

/// The breakable wall with the smallest `(distance, x, y)`.
fn best_adjacent_wall(turn: &Turn, pos: Pos, stands: &[Pos], here: i32, strict: bool) -> (r: Option<Pos>)
    requires
        turn.wf(),
        pos_ok(pos),
        all_pos_ok(stands@),
    ensures
        match r {
            Some(p) => breakable(turn, pos, stands@, here as int, strict, p)
                && forall|q: Pos| breakable(turn, pos, stands@, here as int, strict, q) ==> !key_lt(stands@, q, p),
            None => forall|q: Pos| !breakable(turn, pos, stands@, here as int, strict, q),
        },
{
    let walls = turn.wall_positions();
    proof {
        lemma_wall_pos_ok(turn.ours@);
    }
    let mut best: Option<(i32, Pos)> = None;
    let mut i: usize = 0;
    while i < walls.len()
        invariant
            i <= walls@.len(),
            walls@ == wall_pos_list(turn.ours@),
            all_pos_ok(walls@),
            pos_ok(pos),
            all_pos_ok(stands@),
            match best {
                Some((d, p)) => breakable(turn, pos, stands@, here as int, strict, p) && d == fp_dist(p, stands@)
                    && forall|j: int| 0 <= j < i && breakable(turn, pos, stands@, here as int, strict, #[trigger] walls@[j])
                        ==> !key_lt(stands@, walls@[j], p),
                None => forall|j: int| 0 <= j < i ==> !breakable(turn, pos, stands@, here as int, strict, #[trigger] walls@[j]),
            },
        decreases walls@.len() - i,
    {
        let q = walls[i];
        assert(walls@.contains(q)) by { assert(walls@[i as int] == q); }
        if chebyshev(pos, q) == 1 {
            let d = crate::model::footprint_distance(q, stands);
            let ok = if strict { d < here } else { d <= here };
            if ok {
                let better = match best {
                    Some((bd, bp)) => d < bd || (d == bd && (q.x < bp.x || (q.x == bp.x && q.y < bp.y))),
                    None => true,
                };
                if better {
                    best = Some((d, q));
                }
            }
        }
        i += 1;
    }
    proof {
        assert forall|q: Pos| breakable(turn, pos, stands@, here as int, strict, q) implies
            (match best { Some((d, p)) => !key_lt(stands@, q, p), None => false }) by {
            let j = choose|j: int| 0 <= j < walls@.len() && walls@[j] == q;
            assert(breakable(turn, pos, stands@, here as int, strict, walls@[j]));
        }
    }
    match best {
        Some((_, p)) => Some(p),
        None => None,
    }
}

pub proof fn lemma_wall_pos_ok(s: Seq<Unit>)
    requires
        crate::model::units_wf(s),
    ensures
        all_pos_ok(wall_pos_list(s)),
    decreases s.len(),
{
    if s.len() > 0 {
        let d = s.drop_last();
        assert(crate::model::units_wf(d)) by {
            assert forall|i: int| 0 <= i < d.len() implies (#[trigger] d[i]).wf() by { assert(d[i] == s[i]); }
        }
        lemma_wall_pos_ok(d);
        assert(s.last().wf()) by { assert(s.last() == s[s.len() - 1]); }
        crate::model::lemma_seq_pos_ok_concat(wall_pos_list(d),
            if crate::model::is_live_wall(s.last()) { seq![s.last().pos] } else { Seq::empty() });
    }
}

pub open spec fn closer_pred(turn: &Turn, blocked: Seq<Pos>, stands: Seq<Pos>, here: int) -> spec_fn(Pos) -> bool {
    |p: Pos| turn.spec_is_land(p) && !blocked.contains(p) && fp_dist(p, stands) < here
}

/// What `break_out` does first: cut the closest adjacent wall that is
/// strictly closer to the stands.
pub open spec fn spec_break_out_first(turn: &Turn, role: &Unit, stands: Seq<Pos>) -> Option<Pos> {
    let here = fp_dist(role.pos, stands);
    if exists|q: Pos| breakable(turn, role.pos, stands, here, true, q) {
        Some(choose|q: Pos| breakable(turn, role.pos, stands, here, true, q)
            && forall|o: Pos| breakable(turn, role.pos, stands, here, true, o) ==> !key_lt(stands, o, q))
    } else {
        None
    }
}

/// What `break_out` promises of an outcome, for the claims `c0` it was given
/// and `c1` it left.
pub open spec fn break_out_result(turn: &Turn, role: Unit, stands: Seq<Pos>, c0: Seq<Pos>, c1: Seq<Pos>,
    r: Option<RoleCommand>) -> bool {
    if stands.len() == 0 {
        r is None && c1 == c0
    } else {
        let here = fp_dist(role.pos, stands);
        let b = spec_blocked_for(turn, role.id);
        let closer = spec_neighbours(role.pos).filter(closer_pred(turn, b, stands, here));
        if exists|q: Pos| breakable(turn, role.pos, stands, here, true, q) {
            exists|p: Pos| r == Some(RoleCommand::Remove(p)) && breakable(turn, role.pos, stands, here, true, p)
                && (forall|q: Pos| breakable(turn, role.pos, stands, here, true, q) ==> !key_lt(stands, q, p))
                && c1 == c0
        } else if closer.len() > 0 {
            walk_result(turn, role, closer, c0, c1, r)
        } else {
            r is None && c1 == c0
        }
    }
}

/// The escape of last resort for a role our own ring has shut out: cut an
/// adjacent wall of ours that strictly shortens the distance to the nearest
/// stand; failing that, step onto a free neighbour that strictly shortens it;
/// failing that, nothing. Every command strictly shortens the distance, so a
/// pocket whose walls lead nowhere is left alone. Among walls, the closest to
/// the stands wins, then the lowest x, then the lowest y.
pub fn break_out(turn: &Turn, role: &Unit, stands: &[Pos], claimed: &mut Vec<Pos>) -> (r: Option<RoleCommand>)
    requires
        turn.wf(),
        role.wf(),
        all_pos_ok(stands@),
    ensures
        break_out_result(turn, *role, stands@, old(claimed)@, final(claimed)@, r),
        stands@.len() == 0 ==> r is None && final(claimed)@ == old(claimed)@,
        r matches Some(RoleCommand::Remove(p)) ==> cheb(role.pos, p) == 1
            && fp_dist(p, stands@) < fp_dist(role.pos, stands@),
        stands@.len() > 0 ==> {
            let here = fp_dist(role.pos, stands@);
            let b = spec_blocked_for(turn, role.id);
            let closer = spec_neighbours(role.pos).filter(closer_pred(turn, b, stands@, here));
            if exists|q: Pos| breakable(turn, role.pos, stands@, here, true, q) {
                exists|p: Pos| r == Some(RoleCommand::Remove(p)) && breakable(turn, role.pos, stands@, here, true, p)
                    && (forall|q: Pos| breakable(turn, role.pos, stands@, here, true, q) ==> !key_lt(stands@, q, p))
                    && final(claimed)@ == old(claimed)@
            } else if closer.len() > 0 {
                walk_result(turn, *role, closer, old(claimed)@, final(claimed)@, r)
            } else {
                r is None && final(claimed)@ == old(claimed)@
            }
        },
{
    if stands.len() == 0 {
        return None;
    }
    let here = crate::model::footprint_distance(role.pos, stands);
    if let Some(p) = best_adjacent_wall(turn, role.pos, stands, here, true) {
        return Some(RoleCommand::Remove(p));
    }
    let blocked = turn.blocked_for(role.id);
    let nbs = neighbours(role.pos);
    let ghost pred = closer_pred(turn, blocked@, stands@, here as int);
    let mut closer: Vec<Pos> = Vec::new();
    let mut i: usize = 0;
    while i < nbs.len()
        invariant
            i <= nbs@.len(),
            nbs@ == spec_neighbours(role.pos),
            all_pos_ok(nbs@),
            all_pos_ok(stands@),
            pred == closer_pred(turn, blocked@, stands@, here as int),
            closer@ == nbs@.take(i as int).filter(pred),
        decreases nbs@.len() - i,
    {
        proof {
            lemma_filter_step(nbs@, i as int, pred);
        }
        let p = nbs[i];
        if turn.is_land(p) && !contains_pos(&blocked, p) && crate::model::footprint_distance(p, stands) < here {
            closer.push(p);
        }
        i += 1;
    }
    assert(nbs@.take(nbs@.len() as int) =~= nbs@);
    if closer.len() > 0 {
        return walk_toward(turn, role, &closer, claimed);
    }
    None
}


pub open spec fn not_pred(q: Pos) -> spec_fn(Pos) -> bool {
    |c: Pos| c != q
}

/// Removing the wall at `q` opens a route from `pos` to a stand.
pub open spec fn reopens(turn: &Turn, id: i64, pos: Pos, stands: Seq<Pos>, q: Pos) -> bool {
    &&& cheb(pos, q) == 1
    &&& in_grid(turn, pos)
    &&& reaches(turn, spec_blocked_for(turn, id).filter(not_pred(q)), pos, stands)
}

/// The first wall (in unit order) among those whose removal reopens the route
/// and that sit closest to the stands.
fn best_reopening_wall(turn: &Turn, role: &Unit, stands: &[Pos], blocked: &Vec<Pos>) -> (r: Option<Pos>)
    requires
        turn.wf(),
        role.wf(),
        all_pos_ok(stands@),
        blocked@ == spec_blocked_for(turn, role.id),
    ensures
        ({
            let w = wall_pos_list(turn.ours@);
            match r {
                Some(p) => exists|i: int| 0 <= i < w.len() && w[i] == p && reopens(turn, role.id, role.pos, stands@, p)
                    && (forall|j: int| 0 <= j < w.len() && reopens(turn, role.id, role.pos, stands@, #[trigger] w[j])
                        ==> fp_dist(w[j], stands@) >= fp_dist(p, stands@))
                    && (forall|j: int| 0 <= j < i && reopens(turn, role.id, role.pos, stands@, #[trigger] w[j])
                        ==> fp_dist(w[j], stands@) > fp_dist(p, stands@)),
                None => forall|j: int| 0 <= j < w.len() ==> !reopens(turn, role.id, role.pos, stands@, #[trigger] w[j]),
            }
        }),
{
    let walls = turn.wall_positions();
    proof {
        lemma_wall_pos_ok(turn.ours@);
    }
    let mut best: Option<(i32, Pos, usize)> = None;
    let mut i: usize = 0;
    while i < walls.len()
        invariant
            i <= walls@.len(),
            walls@ == wall_pos_list(turn.ours@),
            all_pos_ok(walls@),
            role.wf(),
            turn.wf(),
            all_pos_ok(stands@),
            blocked@ == spec_blocked_for(turn, role.id),
            match best {
                Some((d, p, k)) => k < i && walls@[k as int] == p && reopens(turn, role.id, role.pos, stands@, p)
                    && d == fp_dist(p, stands@)
                    && (forall|j: int| 0 <= j < i && reopens(turn, role.id, role.pos, stands@, #[trigger] walls@[j])
                        ==> fp_dist(walls@[j], stands@) >= d)
                    && (forall|j: int| 0 <= j < k && reopens(turn, role.id, role.pos, stands@, #[trigger] walls@[j])
                        ==> fp_dist(walls@[j], stands@) > d),
                None => forall|j: int| 0 <= j < i ==> !reopens(turn, role.id, role.pos, stands@, #[trigger] walls@[j]),
            },
        decreases walls@.len() - i,
    {
        let q = walls[i];
        if chebyshev(role.pos, q) == 1 {
            let ghost pred = not_pred(q);
            let mut opened: Vec<Pos> = Vec::new();
            let mut k: usize = 0;
            while k < blocked.len()
                invariant
                    k <= blocked@.len(),
                    pred == not_pred(q),
                    opened@ == blocked@.take(k as int).filter(pred),
                decreases blocked@.len() - k,
            {
                proof {
                    lemma_filter_step(blocked@, k as int, pred);
                }
                if blocked[k] != q {
                    opened.push(blocked[k]);
                }
                k += 1;
            }
            assert(blocked@.take(blocked@.len() as int) =~= blocked@);
            let found = step_toward_stands(turn, role.pos, stands, &opened);
            if found.is_some() {
                proof {
                    crate::path::lemma_step_reaches(turn, opened@, role.pos, stands@, found->0);
                    assert(reopens(turn, role.id, role.pos, stands@, walls@[i as int]));
                }
                let d = crate::model::footprint_distance(q, stands);
                let better = match best {
                    Some((bd, _, _)) => d < bd,
                    None => true,
                };
                if better {
                    best = Some((d, q, i));
                }
            } else {
                assert(!reopens(turn, role.id, role.pos, stands@, walls@[i as int]));
            }
        }
        i += 1;
    }
    match best {
        Some((_, p, _)) => Some(p),
        None => None,
    }
}


/// What `walk_or_remove_wall` promises of an outcome, for the claims `c0`
/// it was given and `c1` it left.
pub open spec fn reroute_result(turn: &Turn, role: Unit, stands: Seq<Pos>, c0: Seq<Pos>, c1: Seq<Pos>,
    r: Option<RoleCommand>) -> bool {
    match r {
        Some(RoleCommand::Move(s)) => c1 == c0.push(s) && good_step(turn, role.pos, role.id, stands, c0, s),
        Some(RoleCommand::Remove(p)) => c1 == c0
            && no_walk(turn, role, stands, c0)
            && !(turn.is_day && turn.in_day_round >= DAY_ROUNDS - 1)
            && !reaches(turn, spec_blocked_for(turn, role.id), role.pos, stands)
            && wall_pos_list(turn.ours@).contains(p)
            && reopens(turn, role.id, role.pos, stands, p)
            && (forall|q: Pos| wall_pos_list(turn.ours@).contains(q) && reopens(turn, role.id, role.pos, stands, q)
                ==> fp_dist(q, stands) >= fp_dist(p, stands)),
        Some(_) => false,
        None => c1 == c0 && reroute_idle(turn, role, stands, c0),
    }
}

/// No usable stand can be walked to under the claims `c0`.
pub open spec fn no_walk(turn: &Turn, role: Unit, stands: Seq<Pos>, c0: Seq<Pos>) -> bool {
    in_grid(turn, role.pos) ==> !reaches(turn, walk_blocked(turn, role.id, c0), role.pos,
        stands.filter(usable_pred(turn, role.pos, walk_blocked(turn, role.id, c0))))
}

/// When the reroute may leave a role standing: it is on a stand already, or
/// no step leads to one and no wall may come down (the day's last round, a
/// route that only teammates' claims block, or no adjacent wall of ours
/// whose removal reopens the route).
pub open spec fn reroute_idle(turn: &Turn, role: Unit, stands: Seq<Pos>, c0: Seq<Pos>) -> bool {
    ||| stands.contains(role.pos)
    ||| no_walk(turn, role, stands, c0) && {
        ||| (turn.is_day && turn.in_day_round >= DAY_ROUNDS - 1)
        ||| reaches(turn, spec_blocked_for(turn, role.id), role.pos, stands)
        ||| forall|q: Pos| wall_pos_list(turn.ours@).contains(q) ==> !reopens(turn, role.id, role.pos, stands, q)
    }
}

/// Walk toward `stands`; when no route exists because our own ring has sealed
/// the role out, demolish an adjacent wall of ours whose removal makes a stand
/// reachable — never on the day's last round, never for a route that only a
/// teammate's claim blocks, and never a wall that opens nothing.
pub fn walk_or_remove_wall(turn: &Turn, role: &Unit, stands: &[Pos], claimed: &mut Vec<Pos>) -> (r: Option<RoleCommand>)
    requires
        turn.wf(),
        role.wf(),
        all_pos_ok(stands@),
    ensures
        stands@.contains(role.pos) ==> r is None && final(claimed)@ == old(claimed)@,
        reroute_result(turn, *role, stands@, old(claimed)@, final(claimed)@, r),
{
    if contains_pos(stands, role.pos) {
        return None;
    }
    let walked = walk_toward(turn, role, stands, claimed);
    if walked.is_some() {
        return walked;
    }
    if turn.is_day && turn.in_day_round >= DAY_ROUNDS - 1 {
        return None;
    }
    let static_blocked = turn.blocked_for(role.id);
    match step_toward_stands(turn, role.pos, stands, &static_blocked) {
        Some(st) => {
            proof {
                crate::path::lemma_step_reaches(turn, static_blocked@, role.pos, stands@, st);
            }
            return None;
        },
        None => {},
    }
    match best_reopening_wall(turn, role, stands, &static_blocked) {
        Some(p) => {
            proof {
                let w = wall_pos_list(turn.ours@);
                assert forall|q: Pos| w.contains(q) && reopens(turn, role.id, role.pos, stands@, q)
                    implies fp_dist(q, stands@) >= fp_dist(p, stands@) by {
                    let j = choose|j: int| 0 <= j < w.len() && w[j] == q;
                    assert(reopens(turn, role.id, role.pos, stands@, w[j]));
                }
                let i = choose|i: int| 0 <= i < w.len() && w[i] == p && reopens(turn, role.id, role.pos, stands@, p);
                assert(w.contains(p));
                assert(in_grid(turn, role.pos));
            }
            Some(RoleCommand::Remove(p))
        },
        None => {
            proof {
                let w = wall_pos_list(turn.ours@);
                assert forall|q: Pos| w.contains(q) implies !reopens(turn, role.id, role.pos, stands@, q) by {
                    let j = choose|j: int| 0 <= j < w.len() && w[j] == q;
                    assert(!reopens(turn, role.id, role.pos, stands@, w[j]));
                }
            }
            None
        },
    }
}

} // verus!
