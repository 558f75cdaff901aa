//! Score attribution of one round: how much of the running total came from
//! robots removed by our fire (`score2`) and how much from the base standing
//! (`score3`), with the rest left as the residual. The round record that a
//! program writes is built from what this module computes.
//!
//! Robots removed at dawn are cleared by the rules, not shot: they are
//! counted apart and never as kills.

use vstd::prelude::*;
use crate::model::{Turn, Unit, Robot, is_live_wall};
use crate::brain::{survival_score, spec_survival_score};

verus! {

/// What a round leaves behind for the next one to compare against.
#[derive(Debug, Clone)]
pub struct ScoreLedger {
    /// Last round's total score.
    pub prev_total_score: Option<i64>,
    /// Last round's live robots: id and health, in the order they were listed.
    pub prev_robot_hp: Vec<(i64, i64)>,
    /// Last round's live robots: id and the points their removal scores.
    pub prev_robot_kind: Vec<(i64, i64)>,
    /// Last round's summed health of our walls.
    pub prev_wall_hp: Option<i64>,
    /// Points scored so far by robots that left the board under fire.
    pub cum_kill_score: i64,
    /// The day our base was first seen gone.
    pub station_fell_day: Option<i64>,
}

/// How one robot's health moved since last round.
#[derive(Debug, Clone, Copy, PartialEq, Eq, Structural)]
pub enum RobotEvent {
    /// Alive both rounds, with a different health.
    HpDelta { id: i64, delta: i64 },
    /// Alive now and not last round.
    Spawn { id: i64, hp: i64 },
    /// Alive last round and not now.
    Gone { id: i64, hp: i64 },
}

/// The score attribution of one round.
#[derive(Debug)]
pub struct RoundScore {
    pub score_delta: Option<i64>,
    /// True on the first two day rounds, when the robots that survived the
    /// night are cleared by the rules.
    pub dawn: bool,
    /// Points of robots removed this round by our fire (0 at dawn).
    pub killed: i64,
    /// Robots cleared at dawn, and the points they would have scored.
    pub dawn_cleared: i64,
    pub dawn_cleared_score: i64,
    pub cum_kill: i64,
    pub survival: i64,
    /// Total score less kills and survival: the task score and the
    /// estimate's error.
    pub residual: i64,
    pub robot_count: i64,
    pub robot_events: Vec<RobotEvent>,
    pub wall_hp: i64,
    pub wall_hp_delta: Option<i64>,
    pub enemy_wall_hp: i64,
}

/// The first value listed under `id`.
pub open spec fn lookup(s: Seq<(i64, i64)>, id: i64) -> Option<i64>
    decreases s.len(),
{
    if s.len() == 0 {
        None
    } else {
        match lookup(s.drop_last(), id) {
            Some(v) => Some(v),
            None => if s.last().0 == id { Some(s.last().1) } else { None },
        }
    }
}

/// Id and health of the live robots of `s`.
pub open spec fn live_hp(s: Seq<Robot>) -> Seq<(i64, i64)>
    decreases s.len(),
{
    if s.len() == 0 {
        Seq::empty()
    } else {
        let r = live_hp(s.drop_last());
        if s.last().health > 0 { r.push((s.last().id, s.last().health)) } else { r }
    }
}

/// Id and removal points of the live robots of `s`.
pub open spec fn live_kind(s: Seq<Robot>) -> Seq<(i64, i64)>
    decreases s.len(),
{
    if s.len() == 0 {
        Seq::empty()
    } else {
        let r = live_kind(s.drop_last());
        if s.last().health > 0 { r.push((s.last().id, s.last().kind.spec_score() as i64)) } else { r }
    }
}

/// Was the robot listed last round with health left, and is it gone now?
pub open spec fn vanished(e: (i64, i64), now: Seq<(i64, i64)>) -> bool {
    e.1 > 0 && lookup(now, e.0) is None
}

/// How many robots of last round are gone.
pub open spec fn vanished_count(prev: Seq<(i64, i64)>, now: Seq<(i64, i64)>) -> int
    decreases prev.len(),
{
    if prev.len() == 0 {
        0
    } else {
        vanished_count(prev.drop_last(), now) + if vanished(prev.last(), now) { 1int } else { 0int }
    }
}

/// The points of the robots of last round that are gone.
pub open spec fn vanished_score(prev: Seq<(i64, i64)>, now: Seq<(i64, i64)>, kinds: Seq<(i64, i64)>) -> int
    decreases prev.len(),
{
    if prev.len() == 0 {
        0
    } else {
        vanished_score(prev.drop_last(), now, kinds) + if vanished(prev.last(), now) {
            match lookup(kinds, prev.last().0) {
                Some(v) => v as int,
                None => 0int,
            }
        } else {
            0int
        }
    }
}

/// The event of one live robot against last round's health, if any.
pub open spec fn change_of(e: (i64, i64), prev: Seq<(i64, i64)>) -> Option<RobotEvent> {
    match lookup(prev, e.0) {
        Some(p) => if p != e.1 { Some(RobotEvent::HpDelta { id: e.0, delta: (e.1 - p) as i64 }) } else { None },
        None => Some(RobotEvent::Spawn { id: e.0, hp: e.1 }),
    }
}

/// The events of the live robots, in their order.
pub open spec fn change_events(now: Seq<(i64, i64)>, prev: Seq<(i64, i64)>) -> Seq<RobotEvent>
    decreases now.len(),
{
    if now.len() == 0 {
        Seq::empty()
    } else {
        let r = change_events(now.drop_last(), prev);
        match change_of(now.last(), prev) {
            Some(ev) => r.push(ev),
            None => r,
        }
    }
}

/// The robots of last round that are not listed now, in last round's order.
pub open spec fn gone_events(prev: Seq<(i64, i64)>, now: Seq<(i64, i64)>) -> Seq<RobotEvent>
    decreases prev.len(),
{
    if prev.len() == 0 {
        Seq::empty()
    } else {
        let r = gone_events(prev.drop_last(), now);
        if lookup(now, prev.last().0) is None {
            r.push(RobotEvent::Gone { id: prev.last().0, hp: prev.last().1 })
        } else {
            r
        }
    }
}

/// Summed health of the standing walls of `s`.
pub open spec fn wall_hp_of(s: Seq<Unit>) -> int
    decreases s.len(),
{
    if s.len() == 0 {
        0
    } else {
        wall_hp_of(s.drop_last()) + if is_live_wall(s.last()) { s.last().health as int } else { 0int }
    }
}

impl ScoreLedger {
    /// Values that the score arithmetic can hold.
    pub open spec fn wf(&self) -> bool {
        &&& self.prev_total_score matches Some(t) ==> -1_000_000_000_000_000 <= t <= 1_000_000_000_000_000
        &&& self.prev_robot_hp@.len() <= 10_000
        &&& forall|k: int| 0 <= k < self.prev_robot_hp@.len()
            ==> -1_000_000_000 <= (#[trigger] self.prev_robot_hp@[k]).1 <= 1_000_000_000
        &&& self.prev_robot_kind@.len() <= 10_000
        &&& forall|k: int| 0 <= k < self.prev_robot_kind@.len() ==> 0 <= (#[trigger] self.prev_robot_kind@[k]).1 <= 10
        &&& self.prev_wall_hp matches Some(w) ==> -1_000_000_000_000_000 <= w <= 1_000_000_000_000_000
        &&& self.station_fell_day matches Some(f) ==> -1_000_000 <= f <= 1_000_000
        &&& 0 <= self.cum_kill_score
    }

    /// A ledger before the first round.
    pub fn new() -> (l: ScoreLedger)
        ensures
            l.wf(),
            l.prev_total_score is None,
            l.prev_robot_hp@.len() == 0,
            l.prev_robot_kind@.len() == 0,
            l.prev_wall_hp is None,
            l.cum_kill_score == 0,
            l.station_fell_day is None,
    {
        ScoreLedger {
            prev_total_score: None,
            prev_robot_hp: Vec::new(),
            prev_robot_kind: Vec::new(),
            prev_wall_hp: None,
            cum_kill_score: 0,
            station_fell_day: None,
        }
    }
}

fn lookup_in(s: &Vec<(i64, i64)>, id: i64) -> (r: Option<i64>)
    ensures
        r == lookup(s@, id),
        r matches Some(v) ==> exists|k: int| 0 <= k < s@.len() && (#[trigger] s@[k]).1 == v,
{
    let mut i: usize = 0;
    while i < s.len()
        invariant
            i <= s@.len(),
            lookup(s@.take(i as int), id) is None,
        decreases s@.len() - i,
    {
        assert(s@.take(i as int + 1).drop_last() =~= s@.take(i as int));
        if s[i].0 == id {
            assert(s@.take(i as int + 1).last() == s@[i as int]);
            proof {
                lemma_lookup_prefix(s@, id, i as int + 1);
            }
            return Some(s[i].1);
        }
        i += 1;
    }
    assert(s@.take(s@.len() as int) =~= s@);
    None
}

/// A value found in a prefix is the value found in the whole.
proof fn lemma_lookup_prefix(s: Seq<(i64, i64)>, id: i64, n: int)
    requires
        0 <= n <= s.len(),
        lookup(s.take(n), id) is Some,
    ensures
        lookup(s, id) == lookup(s.take(n), id),
    decreases s.len() - n,
{
    if n < s.len() {
        assert(s.take(n + 1).drop_last() =~= s.take(n));
        lemma_lookup_prefix(s, id, n + 1);
    } else {
        assert(s.take(n) =~= s);
    }
}

fn live_robots(turn: &Turn) -> (r: (Vec<(i64, i64)>, Vec<(i64, i64)>))
    requires
        turn.wf(),
    ensures
        r.0@ == live_hp(turn.robots@),
        r.1@ == live_kind(turn.robots@),
        r.0@.len() <= turn.robots@.len(),
        r.1@.len() <= turn.robots@.len(),
        forall|k: int| 0 <= k < r.0@.len() ==> 0 < (#[trigger] r.0@[k]).1 <= 1_000_000_000,
        forall|k: int| 0 <= k < r.1@.len() ==> 0 <= (#[trigger] r.1@[k]).1 <= 10,
{
    let mut hp: Vec<(i64, i64)> = Vec::new();
    let mut kind: Vec<(i64, i64)> = Vec::new();
    let mut i: usize = 0;
    while i < turn.robots.len()
        invariant
            turn.wf(),
            i <= turn.robots@.len(),
            hp@ == live_hp(turn.robots@.take(i as int)),
            kind@ == live_kind(turn.robots@.take(i as int)),
            hp@.len() <= i,
            kind@.len() <= i,
            forall|k: int| 0 <= k < hp@.len() ==> 0 < (#[trigger] hp@[k]).1 <= 1_000_000_000,
            forall|k: int| 0 <= k < kind@.len() ==> 0 <= (#[trigger] kind@[k]).1 <= 10,
        decreases turn.robots@.len() - i,
    {
        let r = &turn.robots[i];
        assert(turn.robots@.take(i as int + 1).drop_last() =~= turn.robots@.take(i as int));
        assert(turn.robots@.take(i as int + 1).last() == turn.robots@[i as int]);
        assert(r.wf());
        if r.health > 0 {
            hp.push((r.id, r.health));
            kind.push((r.id, r.kind.score()));
        }
        i += 1;
    }
    assert(turn.robots@.take(turn.robots@.len() as int) =~= turn.robots@);
    (hp, kind)
}

fn wall_hp_sum(s: &Vec<Unit>) -> (r: i64)
    requires
        s@.len() <= 10_000,
        forall|k: int| 0 <= k < s@.len() ==> -1_000_000_000 <= (#[trigger] s@[k]).health <= 1_000_000_000,
    ensures
        r == wall_hp_of(s@),
        0 <= r <= 10_000_000_000_000,
{
    let mut sum: i64 = 0;
    let mut i: usize = 0;
    while i < s.len()
        invariant
            i <= s@.len(),
            s@.len() <= 10_000,
            forall|k: int| 0 <= k < s@.len() ==> -1_000_000_000 <= (#[trigger] s@[k]).health <= 1_000_000_000,
            sum == wall_hp_of(s@.take(i as int)),
            0 <= sum <= i * 1_000_000_000,
        decreases s@.len() - i,
    {
        assert(s@.take(i as int + 1).drop_last() =~= s@.take(i as int));
        assert(s@.take(i as int + 1).last() == s@[i as int]);
        if s[i].kind == crate::model::UnitKind::Wall && s[i].health > 0 {
            sum = sum + s[i].health;
        }
        i += 1;
    }
    assert(s@.take(s@.len() as int) =~= s@);
    sum
}

/// Count and points of the robots of last round that are gone now.
fn vanished_of(prev: &Vec<(i64, i64)>, now: &Vec<(i64, i64)>, kinds: &Vec<(i64, i64)>) -> (r: (i64, i64))
    requires
        prev@.len() <= 10_000,
        forall|k: int| 0 <= k < kinds@.len() ==> 0 <= (#[trigger] kinds@[k]).1 <= 10,
    ensures
        r.0 == vanished_count(prev@, now@),
        r.1 == vanished_score(prev@, now@, kinds@),
        0 <= r.0 <= prev@.len(),
        0 <= r.1 <= 10 * prev@.len(),
{
    let mut count: i64 = 0;
    let mut score: i64 = 0;
    let mut i: usize = 0;
    while i < prev.len()
        invariant
            i <= prev@.len(),
            prev@.len() <= 10_000,
            forall|k: int| 0 <= k < kinds@.len() ==> 0 <= (#[trigger] kinds@[k]).1 <= 10,
            count == vanished_count(prev@.take(i as int), now@),
            score == vanished_score(prev@.take(i as int), now@, kinds@),
            0 <= count <= i,
            0 <= score <= 10 * i,
        decreases prev@.len() - i,
    {
        let e = prev[i];
        assert(prev@.take(i as int + 1).drop_last() =~= prev@.take(i as int));
        assert(prev@.take(i as int + 1).last() == e);
        if e.1 > 0 && lookup_in(now, e.0).is_none() {
            count = count + 1;
            match lookup_in(kinds, e.0) {
                Some(v) => {
                    score = score + v;
                },
                None => {},
            }
        }
        i += 1;
    }
    assert(prev@.take(prev@.len() as int) =~= prev@);
    (count, score)
}

/// The health events of this round's live robots, then the robots that left.
fn robot_events(now: &Vec<(i64, i64)>, prev: &Vec<(i64, i64)>) -> (r: Vec<RobotEvent>)
    requires
        forall|k: int| 0 <= k < now@.len() ==> -1_000_000_000 <= (#[trigger] now@[k]).1 <= 1_000_000_000,
        forall|k: int| 0 <= k < prev@.len() ==> -1_000_000_000 <= (#[trigger] prev@[k]).1 <= 1_000_000_000,
    ensures
        r@ == change_events(now@, prev@) + gone_events(prev@, now@),
{
    let mut out: Vec<RobotEvent> = Vec::new();
    let mut i: usize = 0;
    while i < now.len()
        invariant
            i <= now@.len(),
            forall|k: int| 0 <= k < now@.len() ==> -1_000_000_000 <= (#[trigger] now@[k]).1 <= 1_000_000_000,
            forall|k: int| 0 <= k < prev@.len() ==> -1_000_000_000 <= (#[trigger] prev@[k]).1 <= 1_000_000_000,
            out@ == change_events(now@.take(i as int), prev@),
        decreases now@.len() - i,
    {
        let e = now[i];
        assert(now@.take(i as int + 1).drop_last() =~= now@.take(i as int));
        assert(now@.take(i as int + 1).last() == e);
        assert(-1_000_000_000 <= now@[i as int].1 <= 1_000_000_000);
        match lookup_in(prev, e.0) {
            Some(p) => {
                if p != e.1 {
                    out.push(RobotEvent::HpDelta { id: e.0, delta: e.1 - p });
                }
            },
            None => {
                out.push(RobotEvent::Spawn { id: e.0, hp: e.1 });
            },
        }
        i += 1;
    }
    assert(now@.take(now@.len() as int) =~= now@);
    let ghost head = out@;
    let mut j: usize = 0;
    while j < prev.len()
        invariant
            j <= prev@.len(),
            head == change_events(now@, prev@),
            out@ == head + gone_events(prev@.take(j as int), now@),
        decreases prev@.len() - j,
    {
        let e = prev[j];
        assert(prev@.take(j as int + 1).drop_last() =~= prev@.take(j as int));
        assert(prev@.take(j as int + 1).last() == e);
        if lookup_in(now, e.0).is_none() {
            out.push(RobotEvent::Gone { id: e.0, hp: e.1 });
        }
        proof {
            assert(out@ =~= head + gone_events(prev@.take(j as int + 1), now@));
        }
        j += 1;
    }
    assert(prev@.take(prev@.len() as int) =~= prev@);
    out
}

/// The day the base is on record as fallen after this round: the day it
/// was first seen gone.
pub open spec fn fell_after(turn: &Turn, fell: Option<i64>) -> Option<i64> {
    if turn.spec_station() is None && fell is None { Some(turn.day) } else { fell }
}

pub open spec fn is_dawn(turn: &Turn) -> bool {
    turn.is_day && turn.in_day_round <= 1
}

/// Attributes this round's score and rolls the ledger on to it.
///
/// At dawn the robots that are gone were cleared by the rules and count as
/// no kill; on any other round the points of every robot gone since last
/// round are added to the kills. The day the base is first seen gone is
/// kept, and the survival term stays frozen at it.
pub fn score_round(turn: &Turn, ledger: &mut ScoreLedger) -> (r: RoundScore)
    requires
        turn.wf(),
        old(ledger).wf(),
        -1_000_000_000_000_000 <= turn.total_score <= 1_000_000_000_000_000,
        old(ledger).cum_kill_score <= 1_000_000_000_000_000,
    ensures
        final(ledger).wf(),
        ({
            let l0 = *old(ledger);
            let now = live_hp(turn.robots@);
            let gone = vanished_score(l0.prev_robot_hp@, now, l0.prev_robot_kind@);
            let killed = if is_dawn(turn) { 0 } else { gone };
            let fell = fell_after(turn, l0.station_fell_day);
            let survival = spec_survival_score(turn.day as int, fell);
            let wall = wall_hp_of(turn.ours@);
            &&& r.score_delta == (match l0.prev_total_score {
                Some(p) => Some((turn.total_score - p) as i64),
                None => None::<i64>,
            })
            &&& r.dawn == is_dawn(turn)
            &&& r.killed == killed
            &&& r.dawn_cleared == (if is_dawn(turn) { vanished_count(l0.prev_robot_hp@, now) } else { 0 })
            &&& r.dawn_cleared_score == (if is_dawn(turn) { gone } else { 0 })
            &&& r.cum_kill == l0.cum_kill_score + killed
            &&& r.survival == survival
            &&& r.residual == turn.total_score - (l0.cum_kill_score + killed) - survival
            &&& r.robot_count == now.len()
            &&& r.robot_events@ == change_events(now, l0.prev_robot_hp@) + gone_events(l0.prev_robot_hp@, now)
            &&& r.wall_hp == wall
            &&& r.wall_hp_delta == (match l0.prev_wall_hp {
                Some(p) => Some((wall - p) as i64),
                None => None::<i64>,
            })
            &&& r.enemy_wall_hp == wall_hp_of(turn.enemy@)
            &&& final(ledger).prev_total_score == Some(turn.total_score)
            &&& final(ledger).prev_robot_hp@ == now
            &&& final(ledger).prev_robot_kind@ == live_kind(turn.robots@)
            &&& final(ledger).prev_wall_hp == Some(wall as i64)
            &&& final(ledger).cum_kill_score == l0.cum_kill_score + killed
            &&& final(ledger).station_fell_day == fell
        }),
{
    let (now, kinds) = live_robots(turn);
    let score_delta = match ledger.prev_total_score {
        Some(p) => Some(turn.total_score - p),
        None => None,
    };
    let (gone_count, gone_score) = vanished_of(&ledger.prev_robot_hp, &now, &ledger.prev_robot_kind);
    let dawn = turn.is_day && turn.in_day_round <= 1;
    let killed: i64 = if dawn { 0 } else { gone_score };
    let cum = ledger.cum_kill_score + killed;
    if turn.station().is_none() && ledger.station_fell_day.is_none() {
        ledger.station_fell_day = Some(turn.day);
    }
    let survival = survival_score(turn.day, ledger.station_fell_day);
    assert(-5_000_000_000_000 <= survival <= 10_000_000_000_000) by (nonlinear_arith)
        requires
            survival == spec_survival_score(turn.day as int, ledger.station_fell_day),
            -1_000_000 <= turn.day <= 1_000_000,
            ledger.station_fell_day matches Some(f) ==> -1_000_000 <= f <= 1_000_000;
    let residual = turn.total_score - cum - survival;
    let events = robot_events(&now, &ledger.prev_robot_hp);
    proof {
        assert forall|k: int| 0 <= k < now@.len() implies -1_000_000_000 <= (#[trigger] now@[k]).1 <= 1_000_000_000 by {}
    }
    let wall_hp = wall_hp_sum(&turn.ours);
    let enemy_wall_hp = wall_hp_sum(&turn.enemy);
    let wall_hp_delta = match ledger.prev_wall_hp {
        Some(p) => Some(wall_hp - p),
        None => None,
    };
    let robot_count = now.len() as i64;
    ledger.prev_total_score = Some(turn.total_score);
    ledger.prev_robot_hp = now;
    ledger.prev_robot_kind = kinds;
    ledger.prev_wall_hp = Some(wall_hp);
    ledger.cum_kill_score = cum;
    RoundScore {
        score_delta,
        dawn,
        killed,
        dawn_cleared: if dawn { gone_count } else { 0 },
        dawn_cleared_score: if dawn { gone_score } else { 0 },
        cum_kill: cum,
        survival,
        residual,
        robot_count,
        robot_events: events,
        wall_hp,
        wall_hp_delta,
        enemy_wall_hp,
    }
}

/// Once the base is on record as fallen, no later round moves the day, so
/// the survival term stays frozen at it whatever day it is now.
pub proof fn law_fall_day_is_kept(turn: &Turn, f: i64, later: i64)
    ensures
        fell_after(turn, Some(f)) == Some(f),
        spec_survival_score(later as int, fell_after(turn, Some(f))) == spec_survival_score(turn.day as int, Some(f)),
{
}

} // verus!
