//! Target selection for one ready tower against the round's damage
//! simulation: the robots first (gatling cone, railgun line, rocket splash),
//! then the opponent's buildings ranked by kill probability × disable value.

use vstd::prelude::*;
use crate::model::{Pos, Turn, Unit, UnitKind, Robot, cheb, chebyshev, pos_ok, pos_inner, all_pos_ok,
    robots_wf};
use super::{Sim, hp_of, log_hp, bhp, hp_log_ok, spec_in_range, in_range, spec_within_cone, within_cone,
    spec_line_cells, line_cells, spec_hit_value, hit_value, Weights, weights, enemy_live_station,
    spec_station_killable, station_killable, spec_wall_breach, wall_breach_with, spec_station_focus,
    station_focus, spec_volley_damage, spec_shot_damage, spec_enemy_unit_score, enemy_unit_score_with,
    level_or_one};
use crate::model::spec_tower_projectiles;
use crate::brain::coach::Policy;

verus! {

// ---------------------------------------------------------------------------
// Shared pieces
// ---------------------------------------------------------------------------

/// The first robot of `s` standing at `p`.
pub open spec fn robot_at(s: Seq<Robot>, p: Pos) -> Option<Robot>
    decreases s.len(),
{
    if s.len() == 0 {
        None
    } else if s[0].pos == p {
        Some(s[0])
    } else {
        robot_at(s.drop_first(), p)
    }
}

proof fn lemma_robot_at_wf(s: Seq<Robot>, p: Pos)
    requires
        robots_wf(s),
    ensures
        robot_at(s, p) matches Some(r) ==> r.wf(),
    decreases s.len(),
{
    if s.len() > 0 {
        assert(s[0].wf());
        assert forall|i: int| 0 <= i < s.drop_first().len() implies (#[trigger] s.drop_first()[i]).wf() by {
            assert(s.drop_first()[i] == s[i + 1]);
        }
        lemma_robot_at_wf(s.drop_first(), p);
    }
}

fn find_robot_at(robots: &Vec<Robot>, p: Pos) -> (r: Option<Robot>)
    requires
        robots_wf(robots@),
    ensures
        r == robot_at(robots@, p),
        r matches Some(v) ==> v.wf(),
{
    proof {
        lemma_robot_at_wf(robots@, p);
    }
    let mut i: usize = 0;
    assert(robots@.skip(0) =~= robots@);
    while i < robots.len()
        invariant
            i <= robots@.len(),
            robots_wf(robots@),
            robot_at(robots@, p) == robot_at(robots@.skip(i as int), p),
        decreases robots@.len() - i,
    {
        assert(robots@[i as int].wf());
        assert(robots@.skip(i as int).drop_first() =~= robots@.skip(i as int + 1));
        assert(robots@.skip(i as int)[0] == robots@[i as int]);
        if robots[i].pos == p {
            return Some(robots[i]);
        }
        i += 1;
    }
    None
}

/// The first robot with simulated HP left on `cells`, skipping `from`.
pub open spec fn first_on(cells: Seq<Pos>, robots: Seq<Robot>, log: Seq<(i64, i64)>, from: Pos) -> Option<Robot>
    decreases cells.len(),
{
    if cells.len() == 0 {
        None
    } else if cells[0] == from {
        first_on(cells.drop_first(), robots, log, from)
    } else {
        match robot_at(robots, cells[0]) {
            Some(r) => if log_hp(log, r.id) > 0 { Some(r) } else { first_on(cells.drop_first(), robots, log, from) },
            None => first_on(cells.drop_first(), robots, log, from),
        }
    }
}

/// The first robot (by simulated HP > 0) along the trajectory from→to.
fn first_on_line(robots: &Vec<Robot>, sim: &Sim, from: Pos, to: Pos) -> (r: Option<Robot>)
    requires
        robots_wf(robots@),
        sim.wf(),
        pos_ok(from),
        pos_ok(to),
    ensures
        r == first_on(spec_line_cells(from, to), robots@, sim.robots@, from),
        r matches Some(v) ==> v.wf(),
{
    let cells = line_cells(from, to);
    let mut i: usize = 0;
    assert(cells@.skip(0) =~= cells@);
    while i < cells.len()
        invariant
            i <= cells@.len(),
            robots_wf(robots@),
            sim.wf(),
            cells@ == spec_line_cells(from, to),
            first_on(cells@, robots@, sim.robots@, from) == first_on(cells@.skip(i as int), robots@, sim.robots@, from),
        decreases cells@.len() - i,
    {
        let ghost rest = cells@.skip(i as int);
        assert(rest.drop_first() =~= cells@.skip(i as int + 1));
        assert(rest[0] == cells@[i as int]);
        let cell = cells[i];
        if cell != from {
            match find_robot_at(robots, cell) {
                Some(v) => {
                    let hp = sim_robot_hp(sim, v.id);
                    if hp > 0 {
                        return Some(v);
                    }
                },
                None => {},
            }
        }
        i += 1;
    }
    None
}

fn sim_robot_hp(sim: &Sim, id: i64) -> (h: i64)
    requires
        sim.wf(),
    ensures
        h == log_hp(sim.robots@, id),
        0 <= h <= 1_000_000_000,
{
    proof {
        super::lemma_hp_of_ok(sim.robots@, id);
    }
    match sim.get(&id) {
        Some(h) => *h,
        None => 0,
    }
}

/// The log after `dmg` more damage on robot `id`.
pub open spec fn damaged(log: Seq<(i64, i64)>, id: i64, dmg: int) -> Seq<(i64, i64)> {
    log.push((id, if log_hp(log, id) - dmg > 0 { (log_hp(log, id) - dmg) as i64 } else { 0i64 }))
}

/// `s`, then its last cell repeated up to length `n`.
pub open spec fn padded(s: Seq<Pos>, n: int) -> Seq<Pos> {
    if s.len() < n { s + Seq::new((n - s.len()) as nat, |i: int| s.last()) } else { s }
}

fn pad_out(v: &mut Vec<Pos>, n: usize)
    requires
        old(v)@.len() >= 1,
    ensures
        final(v)@ == padded(old(v)@, n as int),
{
    let last = v[v.len() - 1];
    let ghost base = v@;
    while v.len() < n
        invariant
            base.len() >= 1,
            last == base.last(),
            v@.len() >= base.len(),
            v@.len() == base.len() || v@.len() <= n,
            v@ == base + Seq::new((v@.len() - base.len()) as nat, |i: int| base.last()),
        decreases n - v@.len(),
    {
        v.push(last);
        assert(v@ =~= base + Seq::new((v@.len() - base.len()) as nat, |i: int| base.last()));
    }
    proof {
        if base.len() < n {
            assert(v@.len() == n);
        } else {
            assert(v@ =~= base);
        }
    }
}

/// A copy of `v` with `p` appended.
fn with_pushed(v: &Vec<Pos>, p: Pos) -> (r: Vec<Pos>)
    ensures
        r@ == v@.push(p),
{
    let mut out: Vec<Pos> = Vec::new();
    let mut i: usize = 0;
    while i < v.len()
        invariant
            i <= v@.len(),
            out@ == v@.take(i as int),
        decreases v@.len() - i,
    {
        out.push(v[i]);
        assert(out@ =~= v@.take(i as int + 1));
        i += 1;
    }
    out.push(p);
    assert(out@ =~= v@.push(p));
    out
}

/// Robots of `s` inside the tower's reach, in order.
pub open spec fn in_reach(tower: Unit, s: Seq<Robot>) -> Seq<Robot>
    decreases s.len(),
{
    if s.len() == 0 {
        Seq::empty()
    } else {
        in_reach(tower, s.drop_last()) + if spec_in_range(tower, s.last().pos) { seq![s.last()] } else { Seq::empty() }
    }
}

fn robots_in_reach(tower: &Unit, robots: &Vec<Robot>) -> (v: Vec<Robot>)
    requires
        tower.wf(),
        robots_wf(robots@),
    ensures
        v@ == in_reach(*tower, robots@),
        robots_wf(v@),
        v@.len() <= robots@.len(),
{
    let mut out: Vec<Robot> = Vec::new();
    let mut i: usize = 0;
    while i < robots.len()
        invariant
            i <= robots@.len(),
            tower.wf(),
            robots_wf(robots@),
            out@ == in_reach(*tower, robots@.take(i as int)),
            robots_wf(out@),
            out@.len() <= i,
        decreases robots@.len() - i,
    {
        assert(robots@.take(i as int + 1).drop_last() =~= robots@.take(i as int));
        assert(robots@.take(i as int + 1).last() == robots@[i as int]);
        let r = robots[i];
        assert(r.wf());
        if in_range(tower, r.pos) {
            out.push(r);
        }
        assert(out@ =~= in_reach(*tower, robots@.take(i as int + 1)));
        i += 1;
    }
    assert(robots@.take(robots@.len() as int) =~= robots@);
    out
}

// ---------------------------------------------------------------------------
// Gatling: `level` bullets in one 90° cone
// ---------------------------------------------------------------------------

/// Value of the next bullet aimed at `r`, when the volley stays in its cone
/// and a robot is on the trajectory.
pub open spec fn gat_value(turn: &Turn, tower: Unit, robots: Seq<Robot>, log: Seq<(i64, i64)>, chosen: Seq<Pos>, r: Robot) -> Option<int> {
    if !spec_within_cone(tower.pos, chosen.push(r.pos)) {
        None
    } else {
        match first_on(spec_line_cells(tower.pos, r.pos), robots, log, tower.pos) {
            None => None,
            Some(v) => Some(spec_hit_value(turn, v, log_hp(log, v.id), 10)),
        }
    }
}

/// The first candidate whose next bullet is worth strictly the most.
pub open spec fn gat_best(turn: &Turn, tower: Unit, robots: Seq<Robot>, log: Seq<(i64, i64)>, chosen: Seq<Pos>, cands: Seq<Robot>) -> Option<(int, Pos)>
    decreases cands.len(),
{
    if cands.len() == 0 {
        None
    } else {
        let rest = gat_best(turn, tower, robots, log, chosen, cands.drop_last());
        match gat_value(turn, tower, robots, log, chosen, cands.last()) {
            None => rest,
            Some(v) => match rest {
                None => Some((v, cands.last().pos)),
                Some(b) => if v > b.0 { Some((v, cands.last().pos)) } else { rest },
            },
        }
    }
}

/// Bullets chosen one by one, each degrading the simulation of the robot it
/// hits, until the volley is full or no legal bullet is left.
pub open spec fn gat_run(turn: &Turn, tower: Unit, robots: Seq<Robot>, cands: Seq<Robot>, bullets: int, chosen: Seq<Pos>, log: Seq<(i64, i64)>) -> (Seq<Pos>, Seq<(i64, i64)>)
    decreases bullets - chosen.len(),
{
    if chosen.len() >= bullets {
        (chosen, log)
    } else {
        match gat_best(turn, tower, robots, log, chosen, cands) {
            None => (chosen, log),
            Some(b) => {
                let log2 = match first_on(spec_line_cells(tower.pos, b.1), robots, log, tower.pos) {
                    Some(v) => damaged(log, v.id, 10),
                    None => log,
                };
                gat_run(turn, tower, robots, cands, bullets, chosen.push(b.1), log2)
            },
        }
    }
}

pub open spec fn spec_gatling(turn: &Turn, tower: Unit, robots: Seq<Robot>, bullets: int, log: Seq<(i64, i64)>) -> (Option<Seq<Pos>>, Seq<(i64, i64)>) {
    let cands = in_reach(tower, robots);
    if cands.len() == 0 {
        (None, log)
    } else {
        let run = gat_run(turn, tower, robots, cands, bullets, Seq::empty(), log);
        (if run.0.len() == 0 { None } else { Some(padded(run.0, bullets)) }, run.1)
    }
}

fn gatling_best(turn: &Turn, tower: &Unit, robots: &Vec<Robot>, cands: &Vec<Robot>, chosen: &Vec<Pos>, sim: &Sim) -> (b: Option<(i64, Pos)>)
    requires
        turn.wf(),
        tower.wf(),
        robots_wf(robots@),
        robots_wf(cands@),
        sim.wf(),
        all_pos_ok(chosen@),
    ensures
        match gat_best(turn, *tower, robots@, sim.robots@, chosen@, cands@) {
            None => b is None,
            Some(x) => b matches Some(y) && y.0 == x.0 && y.1 == x.1,
        },
        b matches Some(y) ==> pos_inner(y.1),
{
    let mut best: Option<(i64, Pos)> = None;
    let mut j: usize = 0;
    while j < cands.len()
        invariant
            j <= cands@.len(),
            turn.wf(),
            tower.wf(),
            robots_wf(robots@),
            robots_wf(cands@),
            sim.wf(),
            all_pos_ok(chosen@),
            match gat_best(turn, *tower, robots@, sim.robots@, chosen@, cands@.take(j as int)) {
                None => best is None,
                Some(x) => best matches Some(y) && y.0 == x.0 && y.1 == x.1,
            },
            best matches Some(y) ==> pos_inner(y.1),
        decreases cands@.len() - j,
    {
        assert(cands@.take(j as int + 1).drop_last() =~= cands@.take(j as int));
        assert(cands@.take(j as int + 1).last() == cands@[j as int]);
        let r = cands[j];
        assert(r.wf());
        let trial = with_pushed(chosen, r.pos);
        assert(all_pos_ok(trial@)) by {
            assert forall|k: int| 0 <= k < trial@.len() implies pos_ok(#[trigger] trial@[k]) by {
                if k < chosen@.len() {
                    assert(trial@[k] == chosen@[k]);
                }
            }
        }
        if within_cone(tower.pos, &trial) {
            match first_on_line(robots, sim, tower.pos, r.pos) {
                Some(victim) => {
                    let hp = sim_robot_hp(sim, victim.id);
                    let value = hit_value(turn, &victim, hp, 10);
                    let better = match best {
                        None => true,
                        Some(y) => value > y.0,
                    };
                    if better {
                        best = Some((value, r.pos));
                    }
                },
                None => {},
            }
        }
        j += 1;
    }
    assert(cands@.take(cands@.len() as int) =~= cands@);
    best
}

/// Up to `bullets` gatling targets, every pair inside one 90° cone, each
/// bullet aimed where it is worth most against the simulation; the volley is
/// padded by repeating its last target.
fn choose_gatling(turn: &Turn, tower: &Unit, robots: &Vec<Robot>, bullets: usize, sim: &mut Sim) -> (r: Option<Vec<Pos>>)
    requires
        turn.wf(),
        tower.wf(),
        robots_wf(robots@),
        old(sim).wf(),
        bullets <= 1000,
    ensures
        final(sim).wf(),
        final(sim).buildings@ == old(sim).buildings@,
        final(sim).fired@ == old(sim).fired@,
        final(sim).robots@ == spec_gatling(turn, *tower, robots@, bullets as int, old(sim).robots@).1,
        match spec_gatling(turn, *tower, robots@, bullets as int, old(sim).robots@).0 {
            None => r is None,
            Some(t) => r matches Some(v) && v@ == t,
        },
{
    let cands = robots_in_reach(tower, robots);
    if cands.len() == 0 {
        return None;
    }
    let ghost log0 = sim.robots@;
    let ghost b0 = sim.buildings@;
    let ghost f0 = sim.fired@;
    let mut chosen: Vec<Pos> = Vec::new();
    while chosen.len() < bullets
        invariant
            turn.wf(),
            tower.wf(),
            robots_wf(robots@),
            robots_wf(cands@),
            cands@ == in_reach(*tower, robots@),
            sim.wf(),
            sim.buildings@ == b0,
            sim.fired@ == f0,
            all_pos_ok(chosen@),
            chosen@.len() <= bullets,
            gat_run(turn, *tower, robots@, cands@, bullets as int, Seq::empty(), log0)
                == gat_run(turn, *tower, robots@, cands@, bullets as int, chosen@, sim.robots@),
        ensures
            gat_run(turn, *tower, robots@, cands@, bullets as int, chosen@, sim.robots@) == (chosen@, sim.robots@),
        decreases bullets - chosen@.len(),
    {
        let best = gatling_best(turn, tower, robots, &cands, &chosen, sim);
        match best {
            Some(b) => {
                let pos = b.1;
                let victim = first_on_line(robots, sim, tower.pos, pos);
                match victim {
                    Some(v) => sim.damage_robot(v.id, 10),
                    None => {},
                }
                chosen.push(pos);
                assert(all_pos_ok(chosen@)) by {
                    assert forall|k: int| 0 <= k < chosen@.len() implies pos_ok(#[trigger] chosen@[k]) by {
                        if k < chosen@.len() - 1 {
                        }
                    }
                }
            },
            None => {
                break;
            },
        }
    }
    if chosen.len() == 0 {
        return None;
    }
    pad_out(&mut chosen, bullets);
    Some(chosen)
}


// ---------------------------------------------------------------------------
// Railgun: one beam whose energy pierces along the line
// ---------------------------------------------------------------------------

/// Value and hits of a beam with `energy` left over `cells`: each robot on
/// the line (simulated HP > 0) takes what energy is left, up to its HP.
pub open spec fn rail_scan(turn: &Turn, robots: Seq<Robot>, log: Seq<(i64, i64)>, from: Pos, cells: Seq<Pos>, energy: int) -> (int, Seq<(i64, i64)>)
    decreases cells.len(),
{
    if cells.len() == 0 {
        (0, Seq::empty())
    } else {
        let c = cells[0];
        let rest = cells.drop_first();
        if c == from || energy <= 0 {
            rail_scan(turn, robots, log, from, rest, energy)
        } else {
            match robot_at(robots, c) {
                None => rail_scan(turn, robots, log, from, rest, energy),
                Some(v) => {
                    let hp = log_hp(log, v.id);
                    if hp <= 0 {
                        rail_scan(turn, robots, log, from, rest, energy)
                    } else {
                        let dmg = if energy < hp { energy } else { hp };
                        let tail = rail_scan(turn, robots, log, from, rest, energy - dmg);
                        (spec_hit_value(turn, v, hp, dmg) + tail.0, seq![(v.id, dmg as i64)] + tail.1)
                    }
                },
            }
        }
    }
}

/// The best beam over the robots of `s`: strictly the most value, the
/// nearer target on a tie. (value, distance, target, hits)
pub open spec fn rail_best(turn: &Turn, tower: Unit, robots: Seq<Robot>, log: Seq<(i64, i64)>, s: Seq<Robot>) -> Option<(int, int, Pos, Seq<(i64, i64)>)>
    decreases s.len(),
{
    if s.len() == 0 {
        None
    } else {
        let rest = rail_best(turn, tower, robots, log, s.drop_last());
        let r = s.last();
        if !spec_in_range(tower, r.pos) {
            rest
        } else {
            let scan = rail_scan(turn, robots, log, tower.pos, spec_line_cells(tower.pos, r.pos), super::railgun_energy(tower));
            if scan.0 <= 0 {
                rest
            } else {
                let d = cheb(tower.pos, r.pos);
                match rest {
                    None => Some((scan.0, d, r.pos, scan.1)),
                    Some(b) => if scan.0 > b.0 || (scan.0 == b.0 && d < b.1) { Some((scan.0, d, r.pos, scan.1)) } else { rest },
                }
            }
        }
    }
}

/// The log after every hit in turn.
pub open spec fn apply_hits(log: Seq<(i64, i64)>, hits: Seq<(i64, i64)>) -> Seq<(i64, i64)>
    decreases hits.len(),
{
    if hits.len() == 0 {
        log
    } else {
        apply_hits(damaged(log, hits[0].0, hits[0].1 as int), hits.drop_first())
    }
}

pub open spec fn hits_ok(hits: Seq<(i64, i64)>) -> bool {
    forall|k: int| 0 <= k < hits.len() ==> 0 <= (#[trigger] hits[k]).1 <= 1_000_000_000
}

fn beam(turn: &Turn, robots: &Vec<Robot>, sim: &Sim, from: Pos, to: Pos, energy0: i64) -> (r: (i64, Vec<(i64, i64)>))
    requires
        turn.wf(),
        robots_wf(robots@),
        sim.wf(),
        pos_ok(from),
        pos_ok(to),
        0 <= energy0 <= 1_000_000,
    ensures
        rail_scan(turn, robots@, sim.robots@, from, spec_line_cells(from, to), energy0 as int) == (r.0 as int, r.1@),
        hits_ok(r.1@),
        0 <= r.0 <= 2_400_000_000 * 2_000_001,
{
    let cells = line_cells(from, to);
    let mut energy: i64 = energy0;
    let mut value: i64 = 0;
    let mut hits: Vec<(i64, i64)> = Vec::new();
    let mut i: usize = 0;
    assert(cells@.skip(0) =~= cells@);
    while i < cells.len()
        invariant
            i <= cells@.len(),
            cells@.len() <= 2_000_001,
            turn.wf(),
            robots_wf(robots@),
            sim.wf(),
            cells@ == spec_line_cells(from, to),
            0 <= energy <= 1_000_000,
            0 <= value <= 2_400_000_000 * i,
            hits_ok(hits@),
            ({
                let tail = rail_scan(turn, robots@, sim.robots@, from, cells@.skip(i as int), energy as int);
                rail_scan(turn, robots@, sim.robots@, from, cells@, energy0 as int) == (value + tail.0, hits@ + tail.1)
            }),
        decreases cells@.len() - i,
    {
        let ghost rest = cells@.skip(i as int);
        assert(rest.drop_first() =~= cells@.skip(i as int + 1));
        assert(rest[0] == cells@[i as int]);
        let cell = cells[i];
        if cell != from && energy > 0 {
            match find_robot_at(robots, cell) {
                Some(victim) => {
                    let hp = sim_robot_hp(sim, victim.id);
                    if hp > 0 {
                        let dmg = if energy < hp { energy } else { hp };
                        let hv = hit_value(turn, &victim, hp, dmg);
                        let ghost tail = rail_scan(turn, robots@, sim.robots@, from, cells@.skip(i as int + 1), (energy - dmg) as int);
                        energy = energy - dmg;
                        value = value + hv;
                        hits.push((victim.id, dmg));
                        assert(hits@ + tail.1 =~= (hits@.drop_last() + (seq![(victim.id, dmg)] + tail.1)));
                        assert(hits_ok(hits@)) by {
                            assert forall|k: int| 0 <= k < hits@.len() implies 0 <= (#[trigger] hits@[k]).1 <= 1_000_000_000 by {
                                if k < hits@.len() - 1 {
                                    assert(hits@[k] == hits@.drop_last()[k]);
                                }
                            }
                        }
                    }
                },
                None => {},
            }
        }
        i += 1;
    }
    assert(cells@.skip(cells@.len() as int) =~= Seq::<Pos>::empty());
    assert(hits@ + Seq::<(i64, i64)>::empty() =~= hits@);
    (value, hits)
}

fn railgun_energy0(tower: &Unit) -> (e: i64)
    requires
        tower.wf(),
    ensures
        e == super::railgun_energy(*tower),
        1 <= e <= 1_000_000,
{
    if tower.attack_power > 0 {
        tower.attack_power
    } else {
        let l = if tower.level > 1 { tower.level } else { 1 };
        if l == 1 { 10 } else if l == 2 { 20 } else { 30 }
    }
}

pub open spec fn spec_railgun(turn: &Turn, tower: Unit, robots: Seq<Robot>, log: Seq<(i64, i64)>) -> (Option<Seq<Pos>>, Seq<(i64, i64)>) {
    match rail_best(turn, tower, robots, log, robots) {
        None => (None, log),
        Some(b) => (Some(seq![b.2]), apply_hits(log, b.3)),
    }
}

/// The railgun's single target: the beam through the robots in reach worth
/// most against the simulation (the nearer target on a tie); its hits are
/// committed to the simulation.
fn choose_railgun(turn: &Turn, tower: &Unit, robots: &Vec<Robot>, sim: &mut Sim) -> (r: Option<Vec<Pos>>)
    requires
        turn.wf(),
        tower.wf(),
        robots_wf(robots@),
        old(sim).wf(),
    ensures
        final(sim).wf(),
        final(sim).buildings@ == old(sim).buildings@,
        final(sim).fired@ == old(sim).fired@,
        final(sim).robots@ == spec_railgun(turn, *tower, robots@, old(sim).robots@).1,
        match spec_railgun(turn, *tower, robots@, old(sim).robots@).0 {
            None => r is None,
            Some(t) => r matches Some(v) && v@ == t,
        },
{
    let energy0 = railgun_energy0(tower);
    let mut best: Option<(i64, i32, Pos, Vec<(i64, i64)>)> = None;
    let mut i: usize = 0;
    while i < robots.len()
        invariant
            i <= robots@.len(),
            turn.wf(),
            tower.wf(),
            robots_wf(robots@),
            sim.wf(),
            energy0 == super::railgun_energy(*tower),
            1 <= energy0 <= 1_000_000,
            match rail_best(turn, *tower, robots@, sim.robots@, robots@.take(i as int)) {
                None => best is None,
                Some(x) => best matches Some(y) && y.0 == x.0 && y.1 == x.1 && y.2 == x.2 && y.3@ == x.3 && hits_ok(y.3@),
            },
        decreases robots@.len() - i,
    {
        assert(robots@.take(i as int + 1).drop_last() =~= robots@.take(i as int));
        assert(robots@.take(i as int + 1).last() == robots@[i as int]);
        let r = robots[i];
        assert(r.wf());
        if in_range(tower, r.pos) {
            let (value, hits) = beam(turn, robots, sim, tower.pos, r.pos, energy0);
            if value > 0 {
                let d = chebyshev(tower.pos, r.pos);
                let better = match &best {
                    None => true,
                    Some(y) => value > y.0 || (value == y.0 && d < y.1),
                };
                if better {
                    best = Some((value, d, r.pos, hits));
                }
            }
        }
        i += 1;
    }
    assert(robots@.take(robots@.len() as int) =~= robots@);
    let (target, hits) = match best {
        None => return None,
        Some(y) => (y.2, y.3),
    };
    let ghost log0 = sim.robots@;
    let ghost b0 = sim.buildings@;
    let ghost f0 = sim.fired@;
    let mut k: usize = 0;
    assert(hits@.skip(0) =~= hits@);
    while k < hits.len()
        invariant
            k <= hits@.len(),
            sim.wf(),
            sim.buildings@ == b0,
            sim.fired@ == f0,
            hits_ok(hits@),
            apply_hits(log0, hits@) == apply_hits(sim.robots@, hits@.skip(k as int)),
        decreases hits@.len() - k,
    {
        assert(hits@.skip(k as int).drop_first() =~= hits@.skip(k as int + 1));
        assert(hits@.skip(k as int)[0] == hits@[k as int]);
        let (id, dmg) = hits[k];
        assert(0 <= dmg <= 1_000_000_000);
        sim.damage_robot(id, dmg);
        k += 1;
    }
    assert(hits@.skip(hits@.len() as int) =~= Seq::<(i64, i64)>::empty());
    let v = vec![target];
    assert(v@ =~= seq![target]);
    Some(v)
}

// ---------------------------------------------------------------------------
// Rocket: missiles of 20 at the centre and 10 on the eight neighbours
// ---------------------------------------------------------------------------

pub open spec fn splash_raw(impact: Pos, p: Pos) -> int {
    if cheb(impact, p) == 0 { 20 } else { 10 }
}

/// Value of a missile landing on `impact` against the robots of `s`.
pub open spec fn splash_sum(turn: &Turn, impact: Pos, s: Seq<Robot>, log: Seq<(i64, i64)>) -> int
    decreases s.len(),
{
    if s.len() == 0 {
        0
    } else {
        let r = s.last();
        splash_sum(turn, impact, s.drop_last(), log)
            + if cheb(impact, r.pos) <= 1 && log_hp(log, r.id) > 0 {
                spec_hit_value(turn, r, log_hp(log, r.id), splash_raw(impact, r.pos))
            } else {
                0
            }
    }
}

/// The log after a missile lands on `impact`.
pub open spec fn splashed(log: Seq<(i64, i64)>, impact: Pos, s: Seq<Robot>) -> Seq<(i64, i64)>
    decreases s.len(),
{
    if s.len() == 0 {
        log
    } else if cheb(impact, s[0].pos) <= 1 {
        splashed(damaged(log, s[0].id, splash_raw(impact, s[0].pos)), impact, s.drop_first())
    } else {
        splashed(log, impact, s.drop_first())
    }
}

/// Positions of the robots of `s` in the tower's reach.
pub open spec fn reach_cells(tower: Unit, s: Seq<Robot>) -> Seq<Pos> {
    in_reach(tower, s).map_values(|r: Robot| r.pos)
}

/// The first impact worth strictly the most.
pub open spec fn rocket_best(turn: &Turn, robots: Seq<Robot>, log: Seq<(i64, i64)>, cands: Seq<Pos>) -> Option<(int, Pos)>
    decreases cands.len(),
{
    if cands.len() == 0 {
        None
    } else {
        let rest = rocket_best(turn, robots, log, cands.drop_last());
        let v = splash_sum(turn, cands.last(), robots, log);
        match rest {
            None => Some((v, cands.last())),
            Some(b) => if v > b.0 { Some((v, cands.last())) } else { rest },
        }
    }
}

/// Missiles placed one by one on the best impact, each splash degrading the
/// simulation, until the salvo is full or a further missile is worth nothing.
pub open spec fn rocket_run(turn: &Turn, robots: Seq<Robot>, cands: Seq<Pos>, missiles: int, impacts: Seq<Pos>, log: Seq<(i64, i64)>) -> (Seq<Pos>, Seq<(i64, i64)>)
    decreases missiles - impacts.len(),
{
    if impacts.len() >= missiles {
        (impacts, log)
    } else {
        match rocket_best(turn, robots, log, cands) {
            None => (impacts, log),
            Some(b) => if b.0 <= 0 && impacts.len() > 0 {
                (impacts, log)
            } else {
                rocket_run(turn, robots, cands, missiles, impacts.push(b.1), splashed(log, b.1, robots))
            },
        }
    }
}

pub open spec fn spec_rocket(turn: &Turn, tower: Unit, robots: Seq<Robot>, missiles: int, log: Seq<(i64, i64)>) -> (Option<Seq<Pos>>, Seq<(i64, i64)>) {
    let cands = reach_cells(tower, robots);
    if cands.len() == 0 {
        (None, log)
    } else {
        let run = rocket_run(turn, robots, cands, missiles, Seq::empty(), log);
        (if run.0.len() == 0 { None } else { Some(padded(run.0, missiles)) }, run.1)
    }
}

fn splash_value(turn: &Turn, impact: Pos, robots: &Vec<Robot>, sim: &Sim) -> (v: i64)
    requires
        turn.wf(),
        robots_wf(robots@),
        robots@.len() <= 10_000,
        sim.wf(),
        pos_ok(impact),
    ensures
        v == splash_sum(turn, impact, robots@, sim.robots@),
        0 <= v <= 2_400_000_000 * 10_000,
{
    let mut value: i64 = 0;
    let mut i: usize = 0;
    while i < robots.len()
        invariant
            i <= robots@.len(),
            robots@.len() <= 10_000,
            turn.wf(),
            robots_wf(robots@),
            sim.wf(),
            pos_ok(impact),
            value == splash_sum(turn, impact, robots@.take(i as int), sim.robots@),
            0 <= value <= 2_400_000_000 * i,
        decreases robots@.len() - i,
    {
        assert(robots@.take(i as int + 1).drop_last() =~= robots@.take(i as int));
        assert(robots@.take(i as int + 1).last() == robots@[i as int]);
        let r = robots[i];
        assert(r.wf());
        let d = chebyshev(impact, r.pos);
        if d <= 1 {
            let hp = sim_robot_hp(sim, r.id);
            if hp > 0 {
                let raw: i64 = if d == 0 { 20 } else { 10 };
                value = value + hit_value(turn, &r, hp, raw);
            }
        }
        i += 1;
    }
    assert(robots@.take(robots@.len() as int) =~= robots@);
    value
}

fn apply_splash(impact: Pos, robots: &Vec<Robot>, sim: &mut Sim)
    requires
        robots_wf(robots@),
        old(sim).wf(),
        pos_ok(impact),
    ensures
        final(sim).wf(),
        final(sim).buildings@ == old(sim).buildings@,
        final(sim).fired@ == old(sim).fired@,
        final(sim).robots@ == splashed(old(sim).robots@, impact, robots@),
{
    let ghost log0 = sim.robots@;
    let mut i: usize = 0;
    assert(robots@.skip(0) =~= robots@);
    while i < robots.len()
        invariant
            i <= robots@.len(),
            robots_wf(robots@),
            sim.wf(),
            pos_ok(impact),
            sim.buildings@ == old(sim).buildings@,
            sim.fired@ == old(sim).fired@,
            splashed(log0, impact, robots@) == splashed(sim.robots@, impact, robots@.skip(i as int)),
        decreases robots@.len() - i,
    {
        assert(robots@.skip(i as int).drop_first() =~= robots@.skip(i as int + 1));
        assert(robots@.skip(i as int)[0] == robots@[i as int]);
        let r = robots[i];
        assert(r.wf());
        let d = chebyshev(impact, r.pos);
        if d <= 1 {
            let raw: i64 = if d == 0 { 20 } else { 10 };
            sim.damage_robot(r.id, raw);
        }
        i += 1;
    }
    assert(robots@.skip(robots@.len() as int) =~= Seq::<Robot>::empty());
}

fn rocket_pick(turn: &Turn, robots: &Vec<Robot>, cands: &Vec<Pos>, sim: &Sim) -> (b: Option<(i64, Pos)>)
    requires
        turn.wf(),
        robots_wf(robots@),
        robots@.len() <= 10_000,
        sim.wf(),
        all_pos_ok(cands@),
    ensures
        match rocket_best(turn, robots@, sim.robots@, cands@) {
            None => b is None,
            Some(x) => b matches Some(y) && y.0 == x.0 && y.1 == x.1,
        },
        b matches Some(y) ==> pos_ok(y.1),
{
    let mut best: Option<(i64, Pos)> = None;
    let mut j: usize = 0;
    while j < cands.len()
        invariant
            j <= cands@.len(),
            turn.wf(),
            robots_wf(robots@),
            robots@.len() <= 10_000,
            sim.wf(),
            all_pos_ok(cands@),
            match rocket_best(turn, robots@, sim.robots@, cands@.take(j as int)) {
                None => best is None,
                Some(x) => best matches Some(y) && y.0 == x.0 && y.1 == x.1,
            },
            best matches Some(y) ==> pos_ok(y.1),
        decreases cands@.len() - j,
    {
        assert(cands@.take(j as int + 1).drop_last() =~= cands@.take(j as int));
        assert(cands@.take(j as int + 1).last() == cands@[j as int]);
        let impact = cands[j];
        let value = splash_value(turn, impact, robots, sim);
        let better = match best {
            None => true,
            Some(y) => value > y.0,
        };
        if better {
            best = Some((value, impact));
        }
        j += 1;
    }
    assert(cands@.take(cands@.len() as int) =~= cands@);
    best
}

/// Up to `missiles` rocket impacts, each on the robot position worth most
/// against the simulation, stopping once a further missile is worth nothing;
/// padded by repeating the last impact.
fn choose_rocket(turn: &Turn, tower: &Unit, robots: &Vec<Robot>, missiles: usize, sim: &mut Sim) -> (r: Option<Vec<Pos>>)
    requires
        turn.wf(),
        tower.wf(),
        robots_wf(robots@),
        robots@.len() <= 10_000,
        old(sim).wf(),
        missiles <= 1000,
    ensures
        final(sim).wf(),
        final(sim).buildings@ == old(sim).buildings@,
        final(sim).fired@ == old(sim).fired@,
        final(sim).robots@ == spec_rocket(turn, *tower, robots@, missiles as int, old(sim).robots@).1,
        match spec_rocket(turn, *tower, robots@, missiles as int, old(sim).robots@).0 {
            None => r is None,
            Some(t) => r matches Some(v) && v@ == t,
        },
{
    let reach = robots_in_reach(tower, robots);
    let mut cands: Vec<Pos> = Vec::new();
    let mut i: usize = 0;
    while i < reach.len()
        invariant
            i <= reach@.len(),
            robots_wf(reach@),
            cands@ == reach@.take(i as int).map_values(|r: Robot| r.pos),
            all_pos_ok(cands@),
        decreases reach@.len() - i,
    {
        assert(reach@[i as int].wf());
        cands.push(reach[i].pos);
        assert(cands@ =~= reach@.take(i as int + 1).map_values(|r: Robot| r.pos));
        i += 1;
    }
    assert(reach@.take(reach@.len() as int) =~= reach@);
    if cands.len() == 0 {
        return None;
    }
    let ghost log0 = sim.robots@;
    let ghost b0 = sim.buildings@;
    let ghost f0 = sim.fired@;
    let mut impacts: Vec<Pos> = Vec::new();
    while impacts.len() < missiles
        invariant
            turn.wf(),
            robots_wf(robots@),
            robots@.len() <= 10_000,
            cands@ == reach_cells(*tower, robots@),
            all_pos_ok(cands@),
            sim.wf(),
            sim.buildings@ == b0,
            sim.fired@ == f0,
            impacts@.len() <= missiles,
            rocket_run(turn, robots@, cands@, missiles as int, Seq::empty(), log0)
                == rocket_run(turn, robots@, cands@, missiles as int, impacts@, sim.robots@),
        ensures
            rocket_run(turn, robots@, cands@, missiles as int, impacts@, sim.robots@) == (impacts@, sim.robots@),
        decreases missiles - impacts@.len(),
    {
        match rocket_pick(turn, robots, &cands, sim) {
            Some(b) => {
                if b.0 <= 0 && impacts.len() > 0 {
                    break;
                }
                apply_splash(b.1, robots, sim);
                impacts.push(b.1);
            },
            None => {
                break;
            },
        }
    }
    if impacts.len() == 0 {
        return None;
    }
    pad_out(&mut impacts, missiles);
    Some(impacts)
}


// ---------------------------------------------------------------------------
// The opponent's buildings
// ---------------------------------------------------------------------------

/// Cells of `cells` inside the tower's reach, in order.
pub open spec fn cells_in_reach(tower: Unit, cells: Seq<Pos>) -> Seq<Pos>
    decreases cells.len(),
{
    if cells.len() == 0 {
        Seq::empty()
    } else {
        cells_in_reach(tower, cells.drop_last()) + if spec_in_range(tower, cells.last()) { seq![cells.last()] } else { Seq::empty() }
    }
}

fn reachable_cells(tower: &Unit, cells: &Vec<Pos>) -> (v: Vec<Pos>)
    requires
        tower.wf(),
        all_pos_ok(cells@),
    ensures
        v@ == cells_in_reach(*tower, cells@),
        all_pos_ok(v@),
        v@.len() <= cells@.len(),
{
    let mut out: Vec<Pos> = Vec::new();
    let mut i: usize = 0;
    while i < cells.len()
        invariant
            i <= cells@.len(),
            tower.wf(),
            all_pos_ok(cells@),
            out@ == cells_in_reach(*tower, cells@.take(i as int)),
            all_pos_ok(out@),
            out@.len() <= i,
        decreases cells@.len() - i,
    {
        assert(cells@.take(i as int + 1).drop_last() =~= cells@.take(i as int));
        assert(cells@.take(i as int + 1).last() == cells@[i as int]);
        let c = cells[i];
        if in_range(tower, c) {
            out.push(c);
        }
        assert(out@ =~= cells_in_reach(*tower, cells@.take(i as int + 1)));
        i += 1;
    }
    assert(cells@.take(cells@.len() as int) =~= cells@);
    out
}

/// Exactly `n` targets: a gatling volley that breaks its cone degrades to its
/// first target, the rest is cut to `n` and padded with the last target.
pub open spec fn spec_pad(tower: Unit, targets: Seq<Pos>, n: int) -> Seq<Pos> {
    let t1 = if tower.kind == UnitKind::Gatling && !spec_within_cone(tower.pos, targets) { targets.take(1) } else { targets };
    let t2 = if t1.len() > n { t1.take(n) } else { t1 };
    if t2.len() == 0 { t2 } else { padded(t2, n) }
}

fn pad_targets(tower: &Unit, targets: &mut Vec<Pos>, projectiles: usize)
    requires
        tower.wf(),
        all_pos_ok(old(targets)@),
    ensures
        final(targets)@ == spec_pad(*tower, old(targets)@, projectiles as int),
{
    if targets.len() == 0 {
        return;
    }
    if tower.kind == UnitKind::Gatling && !within_cone(tower.pos, targets) {
        targets.truncate(1);
    }
    targets.truncate(projectiles);
    proof {
        let t1 = if tower.kind == UnitKind::Gatling && !spec_within_cone(tower.pos, old(targets)@) { old(targets)@.take(1) } else { old(targets)@ };
        assert(t1.take(1) =~= t1.subrange(0, 1));
    }
    if targets.len() == 0 {
        return;
    }
    pad_out(targets, projectiles);
}

pub open spec fn spec_station_targets(turn: &Turn, tower: Unit, n: int, blog: Seq<(i64, i64)>) -> (Option<Seq<Pos>>, Seq<(i64, i64)>) {
    match enemy_live_station(turn) {
        None => (None, blog),
        Some(k) => {
            let st = turn.enemy@[k];
            if bhp(blog, st) <= 0 {
                (None, blog)
            } else {
                let cells = cells_in_reach(tower, st.spec_footprint());
                if cells.len() == 0 {
                    (None, blog)
                } else {
                    (Some(spec_pad(tower, cells, n)), damaged(blog, st.id, spec_volley_damage(tower)))
                }
            }
        },
    }
}

fn live_station_index(turn: &Turn) -> (r: Option<usize>)
    requires
        turn.wf(),
    ensures
        match r {
            Some(k) => enemy_live_station(turn) == Some(k as int) && k < turn.enemy@.len(),
            None => enemy_live_station(turn) is None,
        },
{
    proof {
        crate::model::lemma_first_station(turn.enemy@);
    }
    let mut i: usize = 0;
    while i < turn.enemy.len()
        invariant
            i <= turn.enemy@.len(),
            forall|j: int| 0 <= j < i ==> !((#[trigger] turn.enemy@[j]).kind == UnitKind::Station && turn.enemy@[j].health > 0),
        decreases turn.enemy@.len() - i,
    {
        if turn.enemy[i].kind == UnitKind::Station && turn.enemy[i].health > 0 {
            proof {
                crate::model::lemma_first_station(turn.enemy@);
                let k = crate::model::Turn::first_station(turn.enemy@);
                assert(k is Some);
                let kk = k->0;
                assert(!(kk < i as int));
                assert(!(i < kk));
            }
            return Some(i);
        }
        i += 1;
    }
    None
}

/// The cells of the enemy station in reach, padded to the volley, with the
/// volley's damage reserved in the simulation.
fn station_targets(turn: &Turn, tower: &Unit, projectiles: usize, sim: &mut Sim) -> (r: Option<Vec<Pos>>)
    requires
        turn.wf(),
        tower.wf(),
        old(sim).wf(),
    ensures
        final(sim).wf(),
        final(sim).robots@ == old(sim).robots@,
        final(sim).fired@ == old(sim).fired@,
        final(sim).buildings@ == spec_station_targets(turn, *tower, projectiles as int, old(sim).buildings@).1,
        match spec_station_targets(turn, *tower, projectiles as int, old(sim).buildings@).0 {
            None => r is None,
            Some(t) => r matches Some(v) && v@ == t,
        },
{
    let k = match live_station_index(turn) {
        Some(k) => k,
        None => return None,
    };
    let st = &turn.enemy[k];
    assert(st.wf());
    if sim.building_hp(st) <= 0 {
        return None;
    }
    let fp = st.footprint();
    let mut targets = reachable_cells(tower, &fp);
    if targets.len() == 0 {
        return None;
    }
    pad_targets(tower, &mut targets, projectiles);
    let dmg = super::tower_volley_damage(tower);
    sim.damage_building(st.id, dmg);
    Some(targets)
}

/// A ranked enemy unit: (score, id, cells in reach).
pub open spec fn rank_of(policy: Policy, w: Weights, turn: &Turn, tower: Unit, blog: Seq<(i64, i64)>, u: Unit) -> Option<(int, i64, Seq<Pos>)> {
    if u.health <= 0 || bhp(blog, u) <= 0 || (!policy.station_pressure && u.kind == UnitKind::Station) {
        None
    } else {
        let cells = cells_in_reach(tower, u.spec_footprint());
        let score = spec_enemy_unit_score(w, turn, tower, u, cells, blog);
        if score > 0 { Some((score, u.id, cells)) } else { None }
    }
}

pub open spec fn ranked(policy: Policy, w: Weights, turn: &Turn, tower: Unit, blog: Seq<(i64, i64)>, s: Seq<Unit>) -> Seq<(int, i64, Seq<Pos>)>
    decreases s.len(),
{
    if s.len() == 0 {
        Seq::empty()
    } else {
        ranked(policy, w, turn, tower, blog, s.drop_last()) + match rank_of(policy, w, turn, tower, blog, s.last()) {
            Some(e) => seq![e],
            None => Seq::empty(),
        }
    }
}

/// First cells compared, an absent cell first.
pub open spec fn cell_lt(a: Seq<Pos>, b: Seq<Pos>) -> bool {
    if a.len() == 0 {
        b.len() > 0
    } else if b.len() == 0 {
        false
    } else {
        a[0].x < b[0].x || (a[0].x == b[0].x && a[0].y < b[0].y)
    }
}

/// `a` ranks ahead of `b`: higher score, then lower id, then lower first cell.
pub open spec fn ahead(a: (int, i64, Seq<Pos>), b: (int, i64, Seq<Pos>)) -> bool {
    a.0 > b.0 || (a.0 == b.0 && (a.1 < b.1 || (a.1 == b.1 && cell_lt(a.2, b.2))))
}

/// Index of the entry a stable sort by rank puts first.
pub open spec fn first_idx(s: Seq<(int, i64, Seq<Pos>)>) -> int
    decreases s.len(),
{
    if s.len() <= 1 {
        0
    } else {
        let b = first_idx(s.drop_last());
        if ahead(s.last(), s[b]) { s.len() - 1 } else { b }
    }
}

pub proof fn lemma_first_idx_in(s: Seq<(int, i64, Seq<Pos>)>)
    ensures
        s.len() > 0 ==> 0 <= first_idx(s) < s.len(),
    decreases s.len(),
{
    if s.len() > 1 {
        lemma_first_idx_in(s.drop_last());
    }
}

pub open spec fn has_unit_id(s: Seq<Unit>, id: i64) -> bool {
    exists|i: int| 0 <= i < s.len() && (#[trigger] s[i]).id == id
}

pub open spec fn is_wall_id(s: Seq<Unit>, id: i64) -> bool {
    exists|i: int| 0 <= i < s.len() && (#[trigger] s[i]).id == id && s[i].kind == UnitKind::Wall
}

/// Cells committed to one building: in order, while the volley has room,
/// keeping a gatling volley inside its cone; with the damage committed.
pub open spec fn commit(tower: Unit, cells: Seq<Pos>, targets: Seq<Pos>, n: int) -> (Seq<Pos>, int)
    decreases cells.len(),
{
    if cells.len() == 0 || targets.len() >= n {
        (targets, 0)
    } else if tower.kind == UnitKind::Gatling && !spec_within_cone(tower.pos, targets.push(cells[0])) {
        commit(tower, cells.drop_first(), targets, n)
    } else {
        let r = commit(tower, cells.drop_first(), targets.push(cells[0]), n);
        (r.0, r.1 + spec_shot_damage(tower))
    }
}

/// The ranked buildings taken best first: each gets the cells the volley
/// still has room for (a breached wall the whole volley), and its damage is
/// reserved.
pub open spec fn enemy_run(turn: &Turn, tower: Unit, breach: bool, n: int, rk: Seq<(int, i64, Seq<Pos>)>, targets: Seq<Pos>, blog: Seq<(i64, i64)>) -> (Seq<Pos>, Seq<(i64, i64)>)
    decreases rk.len(),
{
    if rk.len() == 0 || targets.len() >= n {
        (targets, blog)
    } else {
        let i = first_idx(rk);
        proof {
            lemma_first_idx_in(rk);
        }
        let e = rk[i];
        let rest = rk.remove(i);
        if !has_unit_id(turn.enemy@, e.1) {
            enemy_run(turn, tower, breach, n, rest, targets, blog)
        } else if breach && is_wall_id(turn.enemy@, e.1) {
            (targets.push(e.2[0]), damaged(blog, e.1, spec_volley_damage(tower)))
        } else {
            let c = commit(tower, e.2, targets, n);
            enemy_run(turn, tower, breach, n, rest, c.0, damaged(blog, e.1, c.1))
        }
    }
}

pub open spec fn breach_weights(w: Weights, breach: bool) -> Weights {
    if breach { Weights { wall_value: w.wall_breach_value, ..w } } else { w }
}

pub open spec fn spec_enemy_targets(policy: Policy, turn: &Turn, tower: Unit, n: int, blog: Seq<(i64, i64)>, fired: Seq<i64>) -> (Option<Seq<Pos>>, Seq<(i64, i64)>) {
    let w = Weights::committed();
    if spec_station_killable(turn, blog, fired) {
        spec_station_targets(turn, tower, n, blog)
    } else {
        let breach = spec_wall_breach(w, turn, tower, blog);
        if !breach && policy.station_pressure && spec_station_focus(w, turn, tower, blog) {
            spec_station_targets(turn, tower, n, blog)
        } else {
            let rk = ranked(policy, breach_weights(w, breach), turn, tower, blog, turn.enemy@);
            let run = enemy_run(turn, tower, breach, n, rk, Seq::empty(), blog);
            (if run.0.len() == 0 { None } else { Some(spec_pad(tower, run.0, n)) }, run.1)
        }
    }
}

pub open spec fn entries_view(v: Seq<(i64, i64, Vec<Pos>)>) -> Seq<(int, i64, Seq<Pos>)> {
    v.map_values(|e: (i64, i64, Vec<Pos>)| (e.0 as int, e.1, e.2@))
}

pub open spec fn entries_ok(v: Seq<(i64, i64, Vec<Pos>)>) -> bool {
    forall|k: int| 0 <= k < v.len() ==> all_pos_ok((#[trigger] v[k]).2@) && v[k].2@.len() > 0 && 0 <= v[k].0 <= 2_000_000_000_000
}

fn rank_enemies(policy: &Policy, w: &Weights, turn: &Turn, tower: &Unit, sim: &Sim) -> (v: Vec<(i64, i64, Vec<Pos>)>)
    requires
        w.wf(),
        turn.wf(),
        tower.wf(),
        sim.wf(),
    ensures
        entries_view(v@) == ranked(*policy, *w, turn, *tower, sim.buildings@, turn.enemy@),
        entries_ok(v@),
{
    let mut out: Vec<(i64, i64, Vec<Pos>)> = Vec::new();
    let mut i: usize = 0;
    while i < turn.enemy.len()
        invariant
            i <= turn.enemy@.len(),
            w.wf(),
            turn.wf(),
            tower.wf(),
            sim.wf(),
            entries_view(out@) == ranked(*policy, *w, turn, *tower, sim.buildings@, turn.enemy@.take(i as int)),
            entries_ok(out@),
        decreases turn.enemy@.len() - i,
    {
        assert(turn.enemy@.take(i as int + 1).drop_last() =~= turn.enemy@.take(i as int));
        assert(turn.enemy@.take(i as int + 1).last() == turn.enemy@[i as int]);
        let u = &turn.enemy[i];
        assert(u.wf());
        let ghost before = out@;
        if u.health > 0 && sim.building_hp(u) > 0 && !(!policy.station_pressure && u.kind == UnitKind::Station) {
            let fp = u.footprint();
            let cells = reachable_cells(tower, &fp);
            let score = enemy_unit_score_with(w, turn, tower, u, &cells, sim);
            if score > 0 {
                let ghost cv = cells@;
                out.push((score, u.id, cells));
                assert(entries_view(out@) =~= entries_view(before).push((score as int, u.id, cv)));
                assert(entries_ok(out@)) by {
                    assert forall|k: int| 0 <= k < out@.len() implies all_pos_ok((#[trigger] out@[k]).2@) && out@[k].2@.len() > 0 && 0 <= out@[k].0 <= 2_000_000_000_000 by {
                        if k < before.len() {
                            assert(out@[k] == before[k]);
                        }
                    }
                }
            }
        }
        assert(entries_view(out@) =~= ranked(*policy, *w, turn, *tower, sim.buildings@, turn.enemy@.take(i as int + 1)));
        i += 1;
    }
    assert(turn.enemy@.take(turn.enemy@.len() as int) =~= turn.enemy@);
    out
}

fn pick_first(v: &Vec<(i64, i64, Vec<Pos>)>) -> (i: usize)
    requires
        v@.len() > 0,
    ensures
        i as int == first_idx(entries_view(v@)),
        i < v@.len(),
{
    let ghost ev = entries_view(v@);
    let mut b: usize = 0;
    let mut k: usize = 1;
    while k < v.len()
        invariant
            1 <= k <= v@.len(),
            ev == entries_view(v@),
            b < k,
            b as int == first_idx(ev.take(k as int)),
        decreases v@.len() - k,
    {
        assert(ev.take(k as int + 1).drop_last() =~= ev.take(k as int));
        assert(ev.take(k as int + 1).last() == ev[k as int]);
        assert(ev.take(k as int + 1)[b as int] == ev[b as int]);
        let a = &v[k];
        let c = &v[b];
        let a_first = if a.2.len() > 0 { Some(a.2[0]) } else { None };
        let c_first = if c.2.len() > 0 { Some(c.2[0]) } else { None };
        let cell_before = match (a_first, c_first) {
            (None, Some(_)) => true,
            (None, None) => false,
            (Some(_), None) => false,
            (Some(p), Some(q)) => p.x < q.x || (p.x == q.x && p.y < q.y),
        };
        if a.0 > c.0 || (a.0 == c.0 && (a.1 < c.1 || (a.1 == c.1 && cell_before))) {
            b = k;
        }
        k += 1;
    }
    assert(ev.take(v@.len() as int) =~= ev);
    b
}

fn unit_id_present(turn: &Turn, id: i64) -> (r: (bool, bool))
    ensures
        r.0 == has_unit_id(turn.enemy@, id),
        r.1 == is_wall_id(turn.enemy@, id),
{
    let mut any = false;
    let mut wall = false;
    let mut i: usize = 0;
    while i < turn.enemy.len()
        invariant
            i <= turn.enemy@.len(),
            any == exists|k: int| 0 <= k < i && (#[trigger] turn.enemy@[k]).id == id,
            wall == exists|k: int| 0 <= k < i && (#[trigger] turn.enemy@[k]).id == id && turn.enemy@[k].kind == UnitKind::Wall,
        decreases turn.enemy@.len() - i,
    {
        if turn.enemy[i].id == id {
            any = true;
            if turn.enemy[i].kind == UnitKind::Wall {
                wall = true;
            }
        }
        proof {
            assert forall|k: int| 0 <= k < i + 1 && (#[trigger] turn.enemy@[k]).id == id implies (k < i || k == i) by {}
        }
        i += 1;
    }
    (any, wall)
}

fn commit_cells(tower: &Unit, cells: &Vec<Pos>, targets: &mut Vec<Pos>, n: usize) -> (d: i64)
    requires
        tower.wf(),
        all_pos_ok(cells@),
        all_pos_ok(old(targets)@),
        old(targets)@.len() <= n,
        n <= 1000,
    ensures
        (final(targets)@, d as int) == commit(*tower, cells@, old(targets)@, n as int),
        all_pos_ok(final(targets)@),
        final(targets)@.len() <= n,
        0 <= d <= 1_000_000_000,
{
    let shot = super::tower_shot_damage(tower);
    let ghost t0 = targets@;
    let mut committed: i64 = 0;
    let mut i: usize = 0;
    assert(cells@.skip(0) =~= cells@);
    while i < cells.len()
        invariant
            i <= cells@.len(),
            tower.wf(),
            all_pos_ok(cells@),
            all_pos_ok(targets@),
            targets@.len() <= n,
            n <= 1000,
            shot == spec_shot_damage(*tower),
            0 <= shot <= 1_000_000,
            0 <= committed <= shot * (targets@.len() - t0.len()),
            t0.len() <= targets@.len(),
            ({
                let r = commit(*tower, cells@.skip(i as int), targets@, n as int);
                commit(*tower, cells@, t0, n as int) == (r.0, r.1 + committed)
            }),
        ensures
            commit(*tower, cells@, t0, n as int) == (targets@, committed as int),
        decreases cells@.len() - i,
    {
        if targets.len() >= n {
            break;
        }
        let ghost rest = cells@.skip(i as int);
        assert(rest.drop_first() =~= cells@.skip(i as int + 1));
        assert(rest[0] == cells@[i as int]);
        let c = cells[i];
        let trial = with_pushed(targets, c);
        assert(all_pos_ok(trial@)) by {
            assert forall|k: int| 0 <= k < trial@.len() implies pos_ok(#[trigger] trial@[k]) by {
                if k < targets@.len() {
                    assert(trial@[k] == targets@[k]);
                }
            }
        }
        if tower.kind == UnitKind::Gatling && !within_cone(tower.pos, &trial) {
            i += 1;
            continue;
        }
        targets.push(c);
        assert(all_pos_ok(targets@)) by {
            assert(targets@ == trial@);
        }
        assert(shot * (targets@.len() - t0.len()) == shot * (targets@.len() - 1 - t0.len()) + shot) by (nonlinear_arith);
        assert(shot * (targets@.len() - t0.len()) <= 1_000_000 * 1000) by (nonlinear_arith)
            requires 0 <= shot <= 1_000_000, 0 <= targets@.len() - t0.len() <= 1000;
        committed = committed + shot;
        i += 1;
    }
    proof {
        if i >= cells@.len() {
            assert(cells@.skip(i as int) =~= Seq::<Pos>::empty());
        }
    }
    assert(shot * (targets@.len() - t0.len()) <= 1_000_000 * 1000) by (nonlinear_arith)
        requires 0 <= shot <= 1_000_000, 0 <= targets@.len() - t0.len() <= 1000;
    committed
}

/// Best enemy buildings to shoot when no robot is in reach: a station that
/// dies this round first; then a sustained push on a damaged station unless
/// a wall breach is on the table; else the buildings ranked by kill
/// probability × disable value × urgency (a breachable wall priced up), the
/// volley spilling down the ranking, damage reserved as it is committed.
fn choose_enemy_targets_with(policy: &Policy, turn: &Turn, tower: &Unit, projectiles: usize, sim: &mut Sim) -> (r: Option<Vec<Pos>>)
    requires
        turn.wf(),
        tower.wf(),
        old(sim).wf(),
        projectiles <= 1000,
    ensures
        final(sim).wf(),
        final(sim).robots@ == old(sim).robots@,
        final(sim).fired@ == old(sim).fired@,
        final(sim).buildings@ == spec_enemy_targets(*policy, turn, *tower, projectiles as int, old(sim).buildings@, old(sim).fired@).1,
        match spec_enemy_targets(*policy, turn, *tower, projectiles as int, old(sim).buildings@, old(sim).fired@).0 {
            None => r is None,
            Some(t) => r matches Some(v) && v@ == t,
        },
{
    if station_killable(turn, sim) {
        return station_targets(turn, tower, projectiles, sim);
    }
    let base = weights();
    let breach = wall_breach_with(&base, turn, tower, sim);
    if !breach && policy.station_pressure && station_focus(turn, tower, sim) {
        return station_targets(turn, tower, projectiles, sim);
    }
    let ranking = if breach { Weights { wall_value: base.wall_breach_value, ..base } } else { base };
    let mut entries = rank_enemies(policy, &ranking, turn, tower, sim);
    let ghost b0 = sim.buildings@;
    let ghost r0 = sim.robots@;
    let ghost f0 = sim.fired@;
    let ghost rk0 = entries_view(entries@);
    let mut targets: Vec<Pos> = Vec::new();
    let volley = super::tower_volley_damage(tower);
    while entries.len() > 0
        invariant_except_break
            enemy_run(turn, *tower, breach, projectiles as int, rk0, Seq::empty(), b0)
                == enemy_run(turn, *tower, breach, projectiles as int, entries_view(entries@), targets@, sim.buildings@),
        invariant
            turn.wf(),
            tower.wf(),
            sim.wf(),
            sim.robots@ == r0,
            sim.fired@ == f0,
            projectiles <= 1000,
            targets@.len() <= projectiles,
            all_pos_ok(targets@),
            entries_ok(entries@),
            volley == spec_volley_damage(*tower),
            0 <= volley <= 1_000_000_000,
        ensures
            enemy_run(turn, *tower, breach, projectiles as int, rk0, Seq::empty(), b0) == (targets@, sim.buildings@),
        decreases entries@.len(),
    {
        if targets.len() >= projectiles {
            break;
        }
        let i = pick_first(&entries);
        let ghost ev = entries_view(entries@);
        let ghost before = entries@;
        let e = entries.remove(i);
        assert(entries_view(entries@) =~= ev.remove(i as int));
        assert(ev[i as int] == (e.0 as int, e.1, e.2@));
        assert(all_pos_ok(e.2@) && e.2@.len() > 0);
        assert(entries_ok(entries@)) by {
            assert forall|k: int| 0 <= k < entries@.len() implies all_pos_ok((#[trigger] entries@[k]).2@) && entries@[k].2@.len() > 0 && 0 <= entries@[k].0 <= 2_000_000_000_000 by {
                if k < i {
                    assert(entries@[k] == before[k]);
                } else {
                    assert(entries@[k] == before[k + 1]);
                }
            }
        }
        let (present, wall) = unit_id_present(turn, e.1);
        if !present {
            continue;
        }
        if breach && wall {
            assert(e.2@.len() > 0);
            targets.push(e.2[0]);
            sim.damage_building(e.1, volley);
            break;
        }
        let committed = commit_cells(tower, &e.2, &mut targets, projectiles);
        sim.damage_building(e.1, committed);
    }
    if targets.len() == 0 {
        return None;
    }
    pad_targets(tower, &mut targets, projectiles);
    Some(targets)
}


// ---------------------------------------------------------------------------
// One tower's volley
// ---------------------------------------------------------------------------

/// What a tower spent its volley on.
#[derive(Debug, Clone, Copy, PartialEq, Eq, Structural)]
pub enum TargetKind {
    Robots,
    EnemyAssets,
}

/// The robots of `s` with simulated HP left.
pub open spec fn live_in(log: Seq<(i64, i64)>, s: Seq<Robot>) -> Seq<Robot>
    decreases s.len(),
{
    if s.len() == 0 {
        Seq::empty()
    } else {
        live_in(log, s.drop_last()) + if log_hp(log, s.last().id) > 0 { seq![s.last()] } else { Seq::empty() }
    }
}

/// Robots hunting the other team, with simulated HP left, in reach.
pub open spec fn their_hunters(turn: &Turn, tower: Unit, log: Seq<(i64, i64)>, s: Seq<Robot>) -> Seq<Robot>
    decreases s.len(),
{
    if s.len() == 0 {
        Seq::empty()
    } else {
        let r = s.last();
        their_hunters(turn, tower, log, s.drop_last())
            + if r.target_team != turn.team_type && log_hp(log, r.id) > 0 && spec_in_range(tower, r.pos) { seq![r] } else { Seq::empty() }
    }
}

pub open spec fn fire(fired: Seq<i64>, id: i64) -> Seq<i64> {
    if fired.contains(id) { fired } else { fired.push(id) }
}

/// The whole volley decision: (targets and kind, robot log, building log, fired).
pub open spec fn spec_choose(policy: Policy, turn: &Turn, tower: Unit, rlog: Seq<(i64, i64)>, blog: Seq<(i64, i64)>, fired: Seq<i64>)
    -> (Option<(Seq<Pos>, TargetKind)>, Seq<(i64, i64)>, Seq<(i64, i64)>, Seq<i64>)
{
    let n = spec_tower_projectiles(tower.kind, level_or_one(tower.level));
    if n == 0 {
        (None, rlog, blog, fired)
    } else {
        let st = spec_station_targets(turn, tower, n, blog);
        if spec_station_killable(turn, blog, fired) && st.0 is Some {
            (Some((st.0->0, TargetKind::EnemyAssets)), rlog, st.1, fire(fired, tower.id))
        } else {
            let live = live_in(rlog, turn.robots@);
            let shot = match tower.kind {
                UnitKind::Gatling => spec_gatling(turn, tower, live, n, rlog),
                UnitKind::Railgun => spec_railgun(turn, tower, live, rlog),
                UnitKind::Rocket => spec_rocket(turn, tower, live, n, rlog),
                _ => (None, rlog),
            };
            if shot.0 is Some && shot.0->0.len() > 0 {
                (Some((shot.0->0, TargetKind::Robots)), shot.1, blog, fire(fired, tower.id))
            } else {
                let rlog1 = shot.1;
                let hunters = their_hunters(turn, tower, rlog1, turn.robots@);
                let second = if tower.kind == UnitKind::Rocket && hunters.len() > 0 {
                    spec_rocket(turn, tower, hunters, n, rlog1)
                } else {
                    (None, rlog1)
                };
                if second.0 is Some && second.0->0.len() > 0 {
                    (Some((second.0->0, TargetKind::Robots)), second.1, blog, fire(fired, tower.id))
                } else {
                    let en = spec_enemy_targets(policy, turn, tower, n, blog, fired);
                    match en.0 {
                        Some(t) => (Some((t, TargetKind::EnemyAssets)), second.1, en.1, fire(fired, tower.id)),
                        None => (None, second.1, en.1, fired),
                    }
                }
            }
        }
    }
}

/// A volley marks its tower as fired and nothing else; no volley leaves the
/// fired set as it was; a tower with no projectiles fires nothing and
/// leaves the simulation untouched.
pub proof fn law_volley_marks_its_tower(policy: Policy, turn: &Turn, tower: Unit, rlog: Seq<(i64, i64)>,
    blog: Seq<(i64, i64)>, fired: Seq<i64>)
    ensures
        ({
            let c = spec_choose(policy, turn, tower, rlog, blog, fired);
            &&& c.0 is Some ==> c.3 == fire(fired, tower.id)
            &&& c.0 is None ==> c.3 == fired
            &&& spec_tower_projectiles(tower.kind, level_or_one(tower.level)) == 0 ==>
                c.0 is None && c.1 == rlog && c.2 == blog && c.3 == fired
        }),
{
}

fn mark_fired(sim: &mut Sim, id: i64)
    ensures
        final(sim).fired@ == fire(old(sim).fired@, id),
        final(sim).robots@ == old(sim).robots@,
        final(sim).buildings@ == old(sim).buildings@,
{
    if !super::contains_i64(&sim.fired, id) {
        sim.fired.push(id);
    }
}

fn live_robots(turn: &Turn, sim: &Sim) -> (v: Vec<Robot>)
    requires
        turn.wf(),
        sim.wf(),
    ensures
        v@ == live_in(sim.robots@, turn.robots@),
        robots_wf(v@),
        v@.len() <= turn.robots@.len(),
{
    let mut out: Vec<Robot> = Vec::new();
    let mut i: usize = 0;
    while i < turn.robots.len()
        invariant
            i <= turn.robots@.len(),
            turn.wf(),
            sim.wf(),
            out@ == live_in(sim.robots@, turn.robots@.take(i as int)),
            robots_wf(out@),
            out@.len() <= i,
        decreases turn.robots@.len() - i,
    {
        assert(turn.robots@.take(i as int + 1).drop_last() =~= turn.robots@.take(i as int));
        assert(turn.robots@.take(i as int + 1).last() == turn.robots@[i as int]);
        let r = turn.robots[i];
        assert(r.wf());
        if sim_robot_hp(sim, r.id) > 0 {
            out.push(r);
        }
        assert(out@ =~= live_in(sim.robots@, turn.robots@.take(i as int + 1)));
        i += 1;
    }
    assert(turn.robots@.take(turn.robots@.len() as int) =~= turn.robots@);
    out
}

fn hunters_of_them(turn: &Turn, tower: &Unit, sim: &Sim) -> (v: Vec<Robot>)
    requires
        turn.wf(),
        tower.wf(),
        sim.wf(),
    ensures
        v@ == their_hunters(turn, *tower, sim.robots@, turn.robots@),
        robots_wf(v@),
        v@.len() <= turn.robots@.len(),
{
    let mut out: Vec<Robot> = Vec::new();
    let mut i: usize = 0;
    while i < turn.robots.len()
        invariant
            i <= turn.robots@.len(),
            turn.wf(),
            tower.wf(),
            sim.wf(),
            out@ == their_hunters(turn, *tower, sim.robots@, turn.robots@.take(i as int)),
            robots_wf(out@),
            out@.len() <= i,
        decreases turn.robots@.len() - i,
    {
        assert(turn.robots@.take(i as int + 1).drop_last() =~= turn.robots@.take(i as int));
        assert(turn.robots@.take(i as int + 1).last() == turn.robots@[i as int]);
        let r = turn.robots[i];
        assert(r.wf());
        if r.target_team != turn.team_type && sim_robot_hp(sim, r.id) > 0 && in_range(tower, r.pos) {
            out.push(r);
        }
        assert(out@ =~= their_hunters(turn, *tower, sim.robots@, turn.robots@.take(i as int + 1)));
        i += 1;
    }
    assert(turn.robots@.take(turn.robots@.len() as int) =~= turn.robots@);
    out
}

/// Choose the volley of a ready tower against the adaptive `policy`,
/// degrading `sim` with the damage it is expected to deal and marking the
/// tower as fired: a station that dies this round first, then the robots
/// (gatling, railgun or rocket model; a rocket also the robots marching on
/// the opponent), then the opponent's buildings. `None` when nothing is worth
/// a shot.
pub fn choose_attack_kind_with(policy: &Policy, turn: &Turn, tower: &Unit, sim: &mut Sim) -> (r: Option<(Vec<Pos>, TargetKind)>)
    requires
        turn.wf(),
        tower.wf(),
        old(sim).wf(),
    ensures
        final(sim).wf(),
        ({
            let c = spec_choose(*policy, turn, *tower, old(sim).robots@, old(sim).buildings@, old(sim).fired@);
            &&& final(sim).robots@ == c.1
            &&& final(sim).buildings@ == c.2
            &&& final(sim).fired@ == c.3
            &&& match c.0 {
                None => r is None,
                Some(x) => r matches Some(y) && y.0@ == x.0 && y.1 == x.1,
            }
        }),
{
    let l = if tower.level > 1 { tower.level } else { 1 };
    let n = crate::model::tower_projectiles(tower.kind, l);
    if n <= 0 {
        return None;
    }
    let projectiles = n as usize;
    let ghost rlog0 = sim.robots@;
    let ghost blog0 = sim.buildings@;
    let ghost fired0 = sim.fired@;
    if station_killable(turn, sim) {
        match station_targets(turn, tower, projectiles, sim) {
            Some(targets) => {
                mark_fired(sim, tower.id);
                return Some((targets, TargetKind::EnemyAssets));
            },
            None => {},
        }
    }
    let robots = live_robots(turn, sim);
    let first = match tower.kind {
        UnitKind::Gatling => choose_gatling(turn, tower, &robots, projectiles, sim),
        UnitKind::Railgun => choose_railgun(turn, tower, &robots, sim),
        UnitKind::Rocket => choose_rocket(turn, tower, &robots, projectiles, sim),
        _ => None,
    };
    match first {
        Some(targets) => {
            if targets.len() > 0 {
                mark_fired(sim, tower.id);
                return Some((targets, TargetKind::Robots));
            }
        },
        None => {},
    }
    if tower.kind == UnitKind::Rocket {
        let hunters = hunters_of_them(turn, tower, sim);
        if hunters.len() > 0 {
            match choose_rocket(turn, tower, &hunters, projectiles, sim) {
                Some(targets) => {
                    if targets.len() > 0 {
                        mark_fired(sim, tower.id);
                        return Some((targets, TargetKind::Robots));
                    }
                },
                None => {},
            }
        }
    }
    match choose_enemy_targets_with(policy, turn, tower, projectiles, sim) {
        Some(targets) => {
            mark_fired(sim, tower.id);
            Some((targets, TargetKind::EnemyAssets))
        },
        None => None,
    }
}

/// As `choose_attack_kind_with`, under the committed policy.
pub fn choose_attack_kind(turn: &Turn, tower: &Unit, sim: &mut Sim) -> (r: Option<(Vec<Pos>, TargetKind)>)
    requires
        turn.wf(),
        tower.wf(),
        old(sim).wf(),
    ensures
        final(sim).wf(),
        ({
            let c = spec_choose(Policy::spec_committed(), turn, *tower, old(sim).robots@, old(sim).buildings@, old(sim).fired@);
            &&& final(sim).robots@ == c.1
            &&& final(sim).buildings@ == c.2
            &&& final(sim).fired@ == c.3
            &&& match c.0 {
                None => r is None,
                Some(x) => r matches Some(y) && y.0@ == x.0 && y.1 == x.1,
            }
        }),
{
    let policy = Policy::committed();
    choose_attack_kind_with(&policy, turn, tower, sim)
}

/// The target cells of `choose_attack_kind`.
pub fn choose_attack(turn: &Turn, tower: &Unit, sim: &mut Sim) -> (r: Option<Vec<Pos>>)
    requires
        turn.wf(),
        tower.wf(),
        old(sim).wf(),
    ensures
        final(sim).wf(),
        ({
            let c = spec_choose(Policy::spec_committed(), turn, *tower, old(sim).robots@, old(sim).buildings@, old(sim).fired@);
            &&& final(sim).robots@ == c.1
            &&& final(sim).buildings@ == c.2
            &&& final(sim).fired@ == c.3
            &&& match c.0 {
                None => r is None,
                Some(x) => r matches Some(v) && v@ == x.0,
            }
        }),
{
    match choose_attack_kind(turn, tower, sim) {
        Some(t) => Some(t.0),
        None => None,
    }
}


// ---------------------------------------------------------------------------
// Every volley is as long as the tower fires
// ---------------------------------------------------------------------------

proof fn lemma_padded_len(s: Seq<Pos>, n: int)
    requires
        1 <= s.len() <= n,
    ensures
        padded(s, n).len() == n,
{
}

proof fn lemma_pad_len(tower: Unit, t: Seq<Pos>, n: int)
    requires
        t.len() >= 1,
        n >= 1,
    ensures
        spec_pad(tower, t, n).len() == n,
{
    let t1 = if tower.kind == UnitKind::Gatling && !spec_within_cone(tower.pos, t) { t.take(1) } else { t };
    assert(t1.len() >= 1);
    let t2 = if t1.len() > n { t1.take(n) } else { t1 };
    assert(1 <= t2.len() <= n);
}

proof fn lemma_gat_run_len(turn: &Turn, tower: Unit, robots: Seq<Robot>, cands: Seq<Robot>, bullets: int, chosen: Seq<Pos>, log: Seq<(i64, i64)>)
    requires
        chosen.len() <= bullets,
    ensures
        chosen.len() <= gat_run(turn, tower, robots, cands, bullets, chosen, log).0.len() <= bullets,
    decreases bullets - chosen.len(),
{
    if chosen.len() < bullets {
        match gat_best(turn, tower, robots, log, chosen, cands) {
            None => {},
            Some(b) => {
                let log2 = match first_on(spec_line_cells(tower.pos, b.1), robots, log, tower.pos) {
                    Some(v) => damaged(log, v.id, 10),
                    None => log,
                };
                lemma_gat_run_len(turn, tower, robots, cands, bullets, chosen.push(b.1), log2);
            },
        }
    }
}

proof fn lemma_rocket_run_len(turn: &Turn, robots: Seq<Robot>, cands: Seq<Pos>, missiles: int, impacts: Seq<Pos>, log: Seq<(i64, i64)>)
    requires
        impacts.len() <= missiles,
    ensures
        impacts.len() <= rocket_run(turn, robots, cands, missiles, impacts, log).0.len() <= missiles,
    decreases missiles - impacts.len(),
{
    if impacts.len() < missiles {
        match rocket_best(turn, robots, log, cands) {
            None => {},
            Some(b) => {
                if !(b.0 <= 0 && impacts.len() > 0) {
                    lemma_rocket_run_len(turn, robots, cands, missiles, impacts.push(b.1), splashed(log, b.1, robots));
                }
            },
        }
    }
}

proof fn lemma_gatling_len(turn: &Turn, tower: Unit, robots: Seq<Robot>, n: int, log: Seq<(i64, i64)>)
    requires
        n >= 1,
    ensures
        spec_gatling(turn, tower, robots, n, log).0 matches Some(t) ==> t.len() == n,
{
    let cands = in_reach(tower, robots);
    if cands.len() > 0 {
        lemma_gat_run_len(turn, tower, robots, cands, n, Seq::empty(), log);
        let run = gat_run(turn, tower, robots, cands, n, Seq::empty(), log);
        if run.0.len() > 0 {
            lemma_padded_len(run.0, n);
        }
    }
}

proof fn lemma_rocket_len(turn: &Turn, tower: Unit, robots: Seq<Robot>, n: int, log: Seq<(i64, i64)>)
    requires
        n >= 1,
    ensures
        spec_rocket(turn, tower, robots, n, log).0 matches Some(t) ==> t.len() == n,
{
    let cands = reach_cells(tower, robots);
    if cands.len() > 0 {
        lemma_rocket_run_len(turn, robots, cands, n, Seq::empty(), log);
        let run = rocket_run(turn, robots, cands, n, Seq::empty(), log);
        if run.0.len() > 0 {
            lemma_padded_len(run.0, n);
        }
    }
}

proof fn lemma_enemy_len(policy: Policy, turn: &Turn, tower: Unit, n: int, blog: Seq<(i64, i64)>, fired: Seq<i64>)
    requires
        n >= 1,
    ensures
        spec_enemy_targets(policy, turn, tower, n, blog, fired).0 matches Some(t) ==> t.len() == n,
{
    match enemy_live_station(turn) {
        Some(k) => {
            let cells = cells_in_reach(tower, turn.enemy@[k].spec_footprint());
            if cells.len() > 0 {
                lemma_pad_len(tower, cells, n);
            }
        },
        None => {},
    }
    let w = Weights::committed();
    let breach = spec_wall_breach(w, turn, tower, blog);
    let rk = ranked(policy, breach_weights(w, breach), turn, tower, blog, turn.enemy@);
    let run = enemy_run(turn, tower, breach, n, rk, Seq::empty(), blog);
    if run.0.len() > 0 {
        lemma_pad_len(tower, run.0, n);
    }
}

/// The judger takes a volley only at its exact length: whatever a ready
/// tower is told to shoot holds exactly as many targets as it fires
/// projectiles (its level for a gatling or rocket, one beam for a railgun).
pub proof fn law_volley_has_the_tower_projectiles(policy: Policy, turn: &Turn, tower: Unit, rlog: Seq<(i64, i64)>, blog: Seq<(i64, i64)>, fired: Seq<i64>)
    ensures
        spec_choose(policy, turn, tower, rlog, blog, fired).0 matches Some(x)
            ==> x.0.len() == spec_tower_projectiles(tower.kind, level_or_one(tower.level)),
{
    let n = spec_tower_projectiles(tower.kind, level_or_one(tower.level));
    if n >= 1 {
        match enemy_live_station(turn) {
            Some(k) => {
                let cells = cells_in_reach(tower, turn.enemy@[k].spec_footprint());
                if cells.len() > 0 {
                    lemma_pad_len(tower, cells, n);
                }
            },
            None => {},
        }
        let live = live_in(rlog, turn.robots@);
        lemma_gatling_len(turn, tower, live, n, rlog);
        lemma_rocket_len(turn, tower, live, n, rlog);
        let shot = match tower.kind {
            UnitKind::Gatling => spec_gatling(turn, tower, live, n, rlog),
            UnitKind::Railgun => spec_railgun(turn, tower, live, rlog),
            UnitKind::Rocket => spec_rocket(turn, tower, live, n, rlog),
            _ => (None, rlog),
        };
        let hunters = their_hunters(turn, tower, shot.1, turn.robots@);
        lemma_rocket_len(turn, tower, hunters, n, shot.1);
        lemma_enemy_len(policy, turn, tower, n, blog, fired);
    }
}

} // verus!
