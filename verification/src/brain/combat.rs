//! Weapon ballistics models and target selection.
//!
//! Gatling: `level` bullets, every target pair inside one 90° cone, each
//! bullet damaging the first robot along its trajectory (10 dmg). Railgun: a
//! single target, the energy pierces along the line. Rocket: `level` missiles,
//! 20 at the centre and 10 on the eight neighbours.
//!
//! Targeting runs on one objective, the win value of a robot: the score its
//! kill is worth, the damage it would still do to our assets, and how soon
//! that damage lands. Every tower consults a shared per-round HP simulation
//! (`Sim`) so later towers do not overkill what earlier ones claimed.

use vstd::prelude::*;
use crate::text::{chars_of, spells, trimmed, parse_int, spec_trim, spec_parse_i64};
use crate::model::{Pos, Turn, Unit, UnitKind, Robot, RobotKind, Team, cheb, fp_dist, chebyshev,
    footprint_distance, station_footprint, spec_station_footprint, wall_pos_list, is_live_wall,
    is_live_tower, pos_ok, pos_inner, all_pos_ok, FULL_MAP_RANGE, spec_tower_projectiles};

pub mod targeting;

verus! {

/// The tuning dial: every weight the win-value objective uses.
#[derive(Debug, Clone, Copy)]
pub struct Weights {
    /// Score points per point of damage dealt.
    pub damage_weight: i64,
    /// Score points per unit of robot score when a robot dies.
    pub kill_bonus_per_score: i64,
    /// Divisor applied to the expected-damage term.
    pub asset_damage_divisor: i64,
    /// Rounds ahead a robot's damage to our assets is counted over.
    pub fire_horizon: i64,
    /// Rounds of damage charged as terminal risk for a robot in contact.
    pub urgency_rounds: i64,
    /// Urgency lead for enemy assets.
    pub urgency_lead: i64,
    /// Disable value of each enemy unit class.
    pub station_value: i64,
    pub operator_value: i64,
    pub role_value: i64,
    pub tower_value: i64,
    pub wall_value: i64,
    /// Non-zero: sustained pressure on a reachable, damaged enemy station.
    pub station_focus: i64,
    /// Non-zero: tonight's funding follows the firepower gap.
    pub clear_gap_drive: i64,
    /// What an enemy wall is worth once a breach is on the table (0: off).
    pub wall_breach_value: i64,
}

pub open spec fn weight_ok(v: i64) -> bool {
    0 <= v <= 1_000_000
}

impl Weights {
    /// Every weight is a non-negative price small enough for the scoring
    /// arithmetic.
    pub open spec fn wf(&self) -> bool {
        &&& weight_ok(self.damage_weight)
        &&& weight_ok(self.kill_bonus_per_score)
        &&& weight_ok(self.asset_damage_divisor)
        &&& weight_ok(self.fire_horizon)
        &&& weight_ok(self.urgency_rounds)
        &&& weight_ok(self.urgency_lead)
        &&& weight_ok(self.station_value)
        &&& weight_ok(self.operator_value)
        &&& weight_ok(self.role_value)
        &&& weight_ok(self.tower_value)
        &&& weight_ok(self.wall_value)
        &&& weight_ok(self.station_focus)
        &&& weight_ok(self.clear_gap_drive)
        &&& weight_ok(self.wall_breach_value)
    }

    /// The committed dial.
    pub open spec fn committed() -> Weights {
        Weights {
            damage_weight: 2,
            kill_bonus_per_score: 20,
            asset_damage_divisor: 4,
            fire_horizon: 10,
            urgency_rounds: 3,
            urgency_lead: 8,
            station_value: 200,
            operator_value: 600,
            role_value: 400,
            tower_value: 300,
            wall_value: 60,
            station_focus: 1,
            clear_gap_drive: 0,
            wall_breach_value: 320,
        }
    }
}

/// The value named `name` in `values`: the first pair whose key is `name`.
pub open spec fn lookup_of(values: Seq<(String, String)>, name: Seq<char>) -> Option<Seq<char>>
    decreases values.len(),
{
    if values.len() == 0 {
        None
    } else if values[0].0@ == name {
        Some(values[0].1@)
    } else {
        lookup_of(values.drop_first(), name)
    }
}

/// A dial setting: the looked-up text, trimmed, where it reads as an
/// integer; the default otherwise.
pub open spec fn dial(raw: Option<Seq<char>>, default: i64) -> i64 {
    match raw {
        Some(r) => match spec_parse_i64(spec_trim(r)) {
            Some(v) => v,
            None => default,
        },
        None => default,
    }
}

/// The weights that a lookup of tuning values gives: each weight read under
/// its name, the committed value where it is absent or no integer.
pub open spec fn spec_from_lookup(values: Seq<(String, String)>) -> Weights {
    let c = Weights::committed();
    Weights {
        damage_weight: dial(lookup_of(values, "DAMAGE_WEIGHT"@), c.damage_weight),
        kill_bonus_per_score: dial(lookup_of(values, "KILL_BONUS"@), c.kill_bonus_per_score),
        asset_damage_divisor: dial(lookup_of(values, "ASSET_DIVISOR"@), c.asset_damage_divisor),
        fire_horizon: dial(lookup_of(values, "FIRE_HORIZON"@), c.fire_horizon),
        urgency_rounds: dial(lookup_of(values, "URGENCY_ROUNDS"@), c.urgency_rounds),
        urgency_lead: dial(lookup_of(values, "URGENCY_LEAD"@), c.urgency_lead),
        station_value: dial(lookup_of(values, "STATION_VALUE"@), c.station_value),
        operator_value: dial(lookup_of(values, "OPERATOR_VALUE"@), c.operator_value),
        role_value: dial(lookup_of(values, "ROLE_VALUE"@), c.role_value),
        tower_value: dial(lookup_of(values, "TOWER_VALUE"@), c.tower_value),
        wall_value: dial(lookup_of(values, "WALL_VALUE"@), c.wall_value),
        station_focus: dial(lookup_of(values, "STATION_FOCUS"@), c.station_focus),
        clear_gap_drive: dial(lookup_of(values, "CLEAR_GAP"@), c.clear_gap_drive),
        wall_breach_value: dial(lookup_of(values, "WALL_BREACH"@), c.wall_breach_value),
    }
}

proof fn lemma_lookup_skip(values: Seq<(String, String)>, name: Seq<char>, i: int)
    requires
        0 <= i <= values.len(),
        forall|k: int| 0 <= k < i ==> (#[trigger] values[k]).0@ != name,
    ensures
        lookup_of(values, name) == lookup_of(values.subrange(i, values.len() as int), name),
    decreases i,
{
    if i > 0 {
        let t = values.drop_first();
        assert forall|k: int| 0 <= k < i - 1 implies (#[trigger] t[k]).0@ != name by {
            assert(t[k] == values[k + 1]);
        }
        lemma_lookup_skip(t, name, i - 1);
        assert(t.subrange(i - 1, t.len() as int) =~= values.subrange(i, values.len() as int));
    } else {
        assert(values.subrange(0, values.len() as int) =~= values);
    }
}

/// One dial setting read from `values` under `name`.
fn dial_of(values: &Vec<(String, String)>, name: &str, default: i64) -> (r: i64)
    ensures
        r == dial(lookup_of(values@, name@), default),
{
    let mut i: usize = 0;
    while i < values.len()
        invariant
            i <= values@.len(),
            forall|k: int| 0 <= k < i ==> (#[trigger] values@[k]).0@ != name@,
        decreases values@.len() - i,
    {
        let key = chars_of(values[i].0.as_str());
        if spells(&key, name) {
            proof {
                lemma_lookup_skip(values@, name@, i as int);
                assert(values@.subrange(i as int, values@.len() as int)[0] == values@[i as int]);
            }
            let raw = chars_of(values[i].1.as_str());
            let t = trimmed(&raw);
            return match parse_int(&t) {
                Some(v) => v,
                None => default,
            };
        }
        i += 1;
    }
    proof {
        lemma_lookup_skip(values@, name@, i as int);
    }
    default
}

impl Weights {
    /// The weights read from tuning values (name and text pairs, as a
    /// program takes them from its environment): each weight under its
    /// name, trimmed and read as an integer; the committed value where the
    /// name is absent or its text is no integer.
    pub fn from_lookup(values: &Vec<(String, String)>) -> (w: Weights)
        ensures
            w == spec_from_lookup(values@),
    {
        let c = Weights::default();
        Weights {
            damage_weight: dial_of(values, "DAMAGE_WEIGHT", c.damage_weight),
            kill_bonus_per_score: dial_of(values, "KILL_BONUS", c.kill_bonus_per_score),
            asset_damage_divisor: dial_of(values, "ASSET_DIVISOR", c.asset_damage_divisor),
            fire_horizon: dial_of(values, "FIRE_HORIZON", c.fire_horizon),
            urgency_rounds: dial_of(values, "URGENCY_ROUNDS", c.urgency_rounds),
            urgency_lead: dial_of(values, "URGENCY_LEAD", c.urgency_lead),
            station_value: dial_of(values, "STATION_VALUE", c.station_value),
            operator_value: dial_of(values, "OPERATOR_VALUE", c.operator_value),
            role_value: dial_of(values, "ROLE_VALUE", c.role_value),
            tower_value: dial_of(values, "TOWER_VALUE", c.tower_value),
            wall_value: dial_of(values, "WALL_VALUE", c.wall_value),
            station_focus: dial_of(values, "STATION_FOCUS", c.station_focus),
            clear_gap_drive: dial_of(values, "CLEAR_GAP", c.clear_gap_drive),
            wall_breach_value: dial_of(values, "WALL_BREACH", c.wall_breach_value),
        }
    }
}

impl Default for Weights {
    fn default() -> (w: Self)
        ensures
            w == Weights::committed(),
    {
        Weights {
            damage_weight: 2,
            kill_bonus_per_score: 20,
            asset_damage_divisor: 4,
            fire_horizon: 10,
            urgency_rounds: 3,
            urgency_lead: 8,
            station_value: 200,
            operator_value: 600,
            role_value: 400,
            tower_value: 300,
            wall_value: 60,
            station_focus: 1,
            clear_gap_drive: 0,
            wall_breach_value: 320,
        }
    }
}

/// The active dial of the library: the committed weights. A program that
/// reads an override passes its own dial to the `_with` entry points.
pub fn weights() -> (w: Weights)
    ensures
        w == Weights::committed(),
        w.wf(),
{
    Weights::default()
}

// ---------------------------------------------------------------------------
// Robot valuation
// ---------------------------------------------------------------------------

pub open spec fn spec_robot_pressure(kind: RobotKind) -> int {
    (if kind.spec_score() > 1 { kind.spec_score() } else { 1 }) * 10
}

/// Damage a robot class deals to our assets per round: its kill score (at
/// least 1) times ten.
pub fn robot_pressure(kind: RobotKind) -> (p: i64)
    ensures
        p == spec_robot_pressure(kind),
        10 <= p <= 100,
{
    let s = kind.score();
    let s = if s > 1 { s } else { 1 };
    s * 10
}

/// Positions of our standing towers, in unit order.
pub open spec fn tower_pos_list(s: Seq<Unit>) -> Seq<Pos>
    decreases s.len(),
{
    if s.len() == 0 {
        Seq::empty()
    } else {
        tower_pos_list(s.drop_last()) + if is_live_tower(s.last()) { seq![s.last().pos] } else { Seq::empty() }
    }
}

/// Some wall of `walls` stands next to (or on) `p`.
pub open spec fn wall_adjacent(walls: Seq<Pos>, p: Pos) -> bool {
    exists|i: int| 0 <= i < walls.len() && cheb(#[trigger] walls[i], p) <= 1
}

pub open spec fn spec_threat(turn: &Turn, robot: Robot) -> int {
    if robot.target_team != turn.team_type {
        0
    } else {
        10 + (match turn.spec_station() {
            Some(s) => {
                let d = fp_dist(robot.pos, spec_station_footprint(s.pos));
                if 14 - d > 0 { (14 - d) * 2 } else { 0 }
            },
            None => 0,
        }) + (if wall_adjacent(wall_pos_list(turn.ours@), robot.pos) { 15int } else { 0 })
    }
}

proof fn lemma_wall_list_has(s: Seq<Unit>, p: Pos)
    ensures
        (exists|j: int| 0 <= j < wall_pos_list(s).len() && cheb(#[trigger] wall_pos_list(s)[j], p) <= 1)
            <==> (exists|i: int| 0 <= i < s.len() && is_live_wall(#[trigger] s[i]) && cheb(s[i].pos, p) <= 1),
    decreases s.len(),
{
    if s.len() > 0 {
        let t = s.drop_last();
        lemma_wall_list_has(t, p);
        let w = wall_pos_list(s);
        let wt = wall_pos_list(t);
        assert forall|i: int| 0 <= i < t.len() implies #[trigger] s[i] == t[i] by {}
        if exists|j: int| 0 <= j < w.len() && cheb(#[trigger] w[j], p) <= 1 {
            let j = choose|j: int| 0 <= j < w.len() && cheb(#[trigger] w[j], p) <= 1;
            if j < wt.len() {
                assert(w[j] == wt[j]);
                let i = choose|i: int| 0 <= i < t.len() && is_live_wall(#[trigger] t[i]) && cheb(t[i].pos, p) <= 1;
                assert(s[i] == t[i]);
            } else {
                assert(is_live_wall(s.last()) && w[j] == s.last().pos);
                assert(s[s.len() - 1] == s.last());
            }
        }
        if exists|i: int| 0 <= i < s.len() && is_live_wall(#[trigger] s[i]) && cheb(s[i].pos, p) <= 1 {
            let i = choose|i: int| 0 <= i < s.len() && is_live_wall(#[trigger] s[i]) && cheb(s[i].pos, p) <= 1;
            if i < t.len() {
                assert(t[i] == s[i]);
                let j = choose|j: int| 0 <= j < wt.len() && cheb(#[trigger] wt[j], p) <= 1;
                assert(w[j] == wt[j]);
            } else {
                assert(s[i] == s.last());
                assert(w[wt.len() as int] == s.last().pos);
            }
        }
    }
}

/// A robot meleeing one of our walls is worth exactly 15 more threat than
/// the same robot on the same board with no live wall of ours beside it.
pub proof fn law_wall_melee_adds_fifteen(with_wall: &Turn, without: &Turn, robot: Robot)
    requires
        robot.target_team == with_wall.team_type,
        without.team_type == with_wall.team_type,
        without.spec_station() == with_wall.spec_station(),
        exists|i: int| 0 <= i < with_wall.ours@.len() && is_live_wall(#[trigger] with_wall.ours@[i])
            && cheb(with_wall.ours@[i].pos, robot.pos) <= 1,
        forall|i: int| 0 <= i < without.ours@.len() && is_live_wall(#[trigger] without.ours@[i])
            ==> cheb(without.ours@[i].pos, robot.pos) > 1,
    ensures
        spec_threat(with_wall, robot) == spec_threat(without, robot) + 15,
{
    lemma_wall_list_has(with_wall.ours@, robot.pos);
    lemma_wall_list_has(without.ours@, robot.pos);
}

/// Robots marching on the opponent weigh nothing; of two robots hunting us
/// on the same board, alike in whether they melee one of our walls, the one
/// nearer our station (within 14 cells) weighs two more per cell nearer.
pub proof fn law_threat_grows_near_the_station(turn: &Turn, a: Robot, b: Robot)
    requires
        turn.spec_station() is Some,
        a.target_team == turn.team_type,
        b.target_team == turn.team_type,
        wall_adjacent(wall_pos_list(turn.ours@), a.pos) == wall_adjacent(wall_pos_list(turn.ours@), b.pos),
        fp_dist(a.pos, spec_station_footprint(turn.spec_station()->0.pos))
            <= fp_dist(b.pos, spec_station_footprint(turn.spec_station()->0.pos)) <= 14,
    ensures
        spec_threat(turn, a) - spec_threat(turn, b) == 2 * (fp_dist(b.pos, spec_station_footprint(turn.spec_station()->0.pos))
            - fp_dist(a.pos, spec_station_footprint(turn.spec_station()->0.pos))),
{
}

/// A robot marching on the opponent is no threat to us.
pub proof fn law_foreign_robots_no_threat(turn: &Turn, r: Robot)
    requires
        r.target_team != turn.team_type,
    ensures
        spec_threat(turn, r) == 0,
{
}

/// Threat weight: robots hunting our side count, more so the closer they are
/// to our station and when they are meleeing one of our walls.
pub fn threat(turn: &Turn, robot: &Robot) -> (t: i64)
    requires
        turn.wf(),
        robot.wf(),
    ensures
        t == spec_threat(turn, *robot),
        0 <= t <= 53,
{
    if robot.target_team != turn.team_type {
        return 0;
    }
    let mut value: i64 = 10;
    match turn.station() {
        Some(station) => {
            proof {
                crate::brain::action::base_layout::lemma_station_wf(turn);
            }
            let fp = station_footprint(station.pos);
            let d = footprint_distance(robot.pos, &fp);
            if 14 - d > 0 {
                value = value + ((14 - d) * 2) as i64;
            }
        },
        None => {},
    }
    let walls = turn.wall_positions();
    proof {
        crate::brain::lemma_wall_pos_ok(turn.ours@);
    }
    let mut i: usize = 0;
    let mut near = false;
    while i < walls.len()
        invariant
            i <= walls@.len(),
            all_pos_ok(walls@),
            pos_ok(robot.pos),
            !near ==> forall|j: int| 0 <= j < i ==> cheb(#[trigger] walls@[j], robot.pos) > 1,
            near ==> wall_adjacent(walls@, robot.pos),
        decreases walls@.len() - i,
    {
        if chebyshev(walls[i], robot.pos) <= 1 {
            near = true;
        }
        i += 1;
    }
    if near {
        value = value + 15;
    }
    value
}

/// Smallest of `init` and every value of `s`.
pub open spec fn min_from(s: Seq<int>, init: int) -> int
    decreases s.len(),
{
    if s.len() == 0 {
        init
    } else {
        let rest = min_from(s.drop_last(), init);
        if s.last() < rest { s.last() } else { rest }
    }
}

/// Rounds before a robot at `p` touches each of `cells`.
pub open spec fn contact_dists(p: Pos, cells: Seq<Pos>) -> Seq<int> {
    cells.map_values(|q: Pos| if cheb(p, q) - 1 > 0 { cheb(p, q) - 1 } else { 0 })
}

pub open spec fn station_contact(turn: &Turn, p: Pos) -> Seq<int> {
    match turn.spec_station() {
        Some(s) => {
            let d = fp_dist(p, spec_station_footprint(s.pos)) - 1;
            seq![if d > 0 { d } else { 0 }]
        },
        None => Seq::empty(),
    }
}

pub open spec fn spec_rounds_to_contact(turn: &Turn, p: Pos, horizon: int) -> int {
    min_from(station_contact(turn, p) + contact_dists(p, tower_pos_list(turn.ours@))
        + contact_dists(p, wall_pos_list(turn.ours@)), horizon)
}

proof fn lemma_min_from_push(s: Seq<int>, x: int, init: int)
    ensures
        min_from(s.push(x), init) == if x < min_from(s, init) { x } else { min_from(s, init) },
{
    assert(s.push(x).drop_last() =~= s);
}

proof fn lemma_min_from_le(s: Seq<int>, init: int)
    ensures
        min_from(s, init) <= init,
        (forall|i: int| 0 <= i < s.len() ==> s[i] >= 0) && init >= 0 ==> min_from(s, init) >= 0,
    decreases s.len(),
{
    if s.len() > 0 {
        lemma_min_from_le(s.drop_last(), init);
        assert forall|i: int| 0 <= i < s.drop_last().len() implies s.drop_last()[i] == s[i] by {}
        if (forall|i: int| 0 <= i < s.len() ==> s[i] >= 0) {
            assert(s[s.len() - 1] >= 0);
        }
    }
}

proof fn lemma_tower_pos_ok(s: Seq<Unit>)
    requires
        crate::model::units_wf(s),
    ensures
        all_pos_ok(tower_pos_list(s)),
    decreases s.len(),
{
    if s.len() > 0 {
        assert forall|i: int| 0 <= i < s.drop_last().len() implies (#[trigger] s.drop_last()[i]).wf() by {
            assert(s.drop_last()[i] == s[i]);
        }
        lemma_tower_pos_ok(s.drop_last());
        assert(s[s.len() - 1].wf());
        let a = tower_pos_list(s.drop_last());
        let b: Seq<Pos> = if is_live_tower(s.last()) { seq![s.last().pos] } else { Seq::empty() };
        assert forall|i: int| 0 <= i < (a + b).len() implies pos_ok(#[trigger] (a + b)[i]) by {
            if i >= a.len() {
                assert(b[i - a.len()] == s.last().pos);
            }
        }
    }
}

/// Rounds until a robot at `p` can start hitting one of our assets (station,
/// towers, walls), capped at `horizon`; 0 when it is already in contact.
fn contact_rounds(turn: &Turn, p: Pos, horizon: i64) -> (r: i64)
    requires
        turn.wf(),
        pos_inner(p),
        0 <= horizon <= 1_000_000,
    ensures
        r == spec_rounds_to_contact(turn, p, horizon as int),
        0 <= r <= horizon,
{
    let ghost st = station_contact(turn, p);
    let mut best: i64 = horizon;
    match turn.station() {
        Some(station) => {
            proof {
                crate::brain::action::base_layout::lemma_station_wf(turn);
            }
            let fp = station_footprint(station.pos);
            let d = footprint_distance(p, &fp) as i64 - 1;
            let d = if d > 0 { d } else { 0 };
            if d < best {
                best = d;
            }
            proof {
                lemma_min_from_push(Seq::<int>::empty(), d as int, horizon as int);
                assert(st =~= Seq::<int>::empty().push(d as int));
            }
        },
        None => {
            assert(st =~= Seq::<int>::empty());
        },
    }
    let mut i: usize = 0;
    while i < turn.ours.len()
        invariant
            i <= turn.ours@.len(),
            turn.wf(),
            pos_inner(p),
            0 <= horizon <= 1_000_000,
            0 <= best <= horizon,
            st == station_contact(turn, p),
            best == min_from(st + contact_dists(p, tower_pos_list(turn.ours@.take(i as int))), horizon as int),
        decreases turn.ours@.len() - i,
    {
        let ghost pre = st + contact_dists(p, tower_pos_list(turn.ours@.take(i as int)));
        assert(turn.ours@.take(i as int + 1).drop_last() =~= turn.ours@.take(i as int));
        let u = &turn.ours[i];
        assert(u.wf());
        if u.kind.is_tower() && u.health > 0 {
            let d = chebyshev(p, u.pos) as i64 - 1;
            let d = if d > 0 { d } else { 0 };
            proof {
                lemma_min_from_push(pre, d as int, horizon as int);
                assert(st + contact_dists(p, tower_pos_list(turn.ours@.take(i as int + 1))) =~= pre.push(d as int));
            }
            if d < best {
                best = d;
            }
        } else {
            assert(st + contact_dists(p, tower_pos_list(turn.ours@.take(i as int + 1))) =~= pre);
        }
        i += 1;
    }
    assert(turn.ours@.take(turn.ours@.len() as int) =~= turn.ours@);
    let ghost towers_part = st + contact_dists(p, tower_pos_list(turn.ours@));
    let mut i: usize = 0;
    while i < turn.ours.len()
        invariant
            i <= turn.ours@.len(),
            turn.wf(),
            pos_inner(p),
            0 <= horizon <= 1_000_000,
            0 <= best <= horizon,
            towers_part == st + contact_dists(p, tower_pos_list(turn.ours@)),
            best == min_from(towers_part + contact_dists(p, wall_pos_list(turn.ours@.take(i as int))), horizon as int),
        decreases turn.ours@.len() - i,
    {
        let ghost pre = towers_part + contact_dists(p, wall_pos_list(turn.ours@.take(i as int)));
        assert(turn.ours@.take(i as int + 1).drop_last() =~= turn.ours@.take(i as int));
        let u = &turn.ours[i];
        assert(u.wf());
        if u.kind == UnitKind::Wall && u.health > 0 {
            let d = chebyshev(p, u.pos) as i64 - 1;
            let d = if d > 0 { d } else { 0 };
            proof {
                lemma_min_from_push(pre, d as int, horizon as int);
                assert(towers_part + contact_dists(p, wall_pos_list(turn.ours@.take(i as int + 1))) =~= pre.push(d as int));
            }
            if d < best {
                best = d;
            }
        } else {
            assert(towers_part + contact_dists(p, wall_pos_list(turn.ours@.take(i as int + 1))) =~= pre);
        }
        i += 1;
    }
    assert(turn.ours@.take(turn.ours@.len() as int) =~= turn.ours@);
    best
}

/// Rounds until `robot` can start hitting one of our assets, ignoring our
/// fire; 0 means it is already in contact, and the count is capped at the
/// fire horizon of the active dial.
pub fn rounds_to_contact(turn: &Turn, robot: &Robot) -> (r: i64)
    requires
        turn.wf(),
        robot.wf(),
    ensures
        r == spec_rounds_to_contact(turn, robot.pos, Weights::committed().fire_horizon as int),
        0 <= r <= Weights::committed().fire_horizon,
{
    contact_rounds(turn, robot.pos, weights().fire_horizon)
}

pub open spec fn spec_kill_score(w: Weights, robot: Robot) -> int {
    robot.kind.spec_score() * w.kill_bonus_per_score
}

/// Score points of removing this robot under the dial `weights`.
pub fn kill_score_value_with(weights: &Weights, robot: &Robot) -> (v: i64)
    requires
        weights.wf(),
    ensures
        v == spec_kill_score(*weights, *robot),
        0 <= v <= 10_000_000,
{
    robot.kind.score() * weights.kill_bonus_per_score
}

/// Score points of removing this robot.
pub fn kill_score_value(robot: &Robot) -> (v: i64)
    ensures
        v == spec_kill_score(Weights::committed(), *robot),
{
    kill_score_value_with(&weights(), robot)
}

pub open spec fn hunts_us(turn: &Turn, robot: Robot) -> bool {
    robot.target_team == turn.team_type && robot.health > 0
}

pub open spec fn divisor(w: Weights) -> int {
    if w.asset_damage_divisor > 1 { w.asset_damage_divisor as int } else { 1 }
}

pub open spec fn spec_asset_damage(w: Weights, turn: &Turn, robot: Robot) -> int {
    if !hunts_us(turn, robot) {
        0
    } else {
        let contact = spec_rounds_to_contact(turn, robot.pos, Weights::committed().fire_horizon as int);
        let rounds = if w.fire_horizon - contact > 0 { w.fire_horizon - contact } else { 0 };
        spec_robot_pressure(robot.kind) * rounds / divisor(w)
    }
}

fn asset_damage_value_with(weights: &Weights, turn: &Turn, robot: &Robot) -> (v: i64)
    requires
        weights.wf(),
        turn.wf(),
        robot.wf(),
    ensures
        v == spec_asset_damage(*weights, turn, *robot),
        0 <= v <= 100_000_000,
{
    if robot.target_team != turn.team_type || robot.health <= 0 {
        return 0;
    }
    let contact = rounds_to_contact(turn, robot);
    let rounds = if weights.fire_horizon - contact > 0 { weights.fire_horizon - contact } else { 0 };
    let div = if weights.asset_damage_divisor > 1 { weights.asset_damage_divisor } else { 1 };
    let p = robot_pressure(robot.kind);
    assert(0 <= p * rounds <= 100_000_000) by (nonlinear_arith)
        requires 10 <= p <= 100, 0 <= rounds <= 1_000_000;
    assert((p * rounds) / (div as int) <= p * rounds) by (nonlinear_arith)
        requires p * rounds >= 0, div >= 1;
    p * rounds / div
}

/// Expected damage this robot still does to our assets before our towers
/// kill it: its per-round pressure over the rounds left inside the horizon
/// once it reaches us. Robots hunting the other team score nothing.
pub fn asset_damage_value(turn: &Turn, robot: &Robot) -> (v: i64)
    requires
        turn.wf(),
        robot.wf(),
    ensures
        v == spec_asset_damage(Weights::committed(), turn, *robot),
{
    asset_damage_value_with(&weights(), turn, robot)
}

pub open spec fn spec_urgency(w: Weights, turn: &Turn, robot: Robot) -> int {
    if !hunts_us(turn, robot) {
        0
    } else if spec_rounds_to_contact(turn, robot.pos, Weights::committed().fire_horizon as int) > 0 {
        0
    } else {
        spec_robot_pressure(robot.kind) * w.urgency_rounds / divisor(w)
    }
}

fn urgency_value_with(weights: &Weights, turn: &Turn, robot: &Robot) -> (v: i64)
    requires
        weights.wf(),
        turn.wf(),
        robot.wf(),
    ensures
        v == spec_urgency(*weights, turn, *robot),
        0 <= v <= 100_000_000,
{
    if robot.target_team != turn.team_type || robot.health <= 0 {
        return 0;
    }
    if rounds_to_contact(turn, robot) > 0 {
        return 0;
    }
    let div = if weights.asset_damage_divisor > 1 { weights.asset_damage_divisor } else { 1 };
    let p = robot_pressure(robot.kind);
    let u = weights.urgency_rounds;
    assert(0 <= p * u <= 100_000_000) by (nonlinear_arith)
        requires 10 <= p <= 100, 0 <= u <= 1_000_000;
    assert((p * u) / (div as int) <= p * u) by (nonlinear_arith)
        requires p * u >= 0, div >= 1;
    p * u / div
}

/// Terminal risk: damage that lands now, when the robot already touches our
/// line.
pub fn urgency_value(turn: &Turn, robot: &Robot) -> (v: i64)
    requires
        turn.wf(),
        robot.wf(),
    ensures
        v == spec_urgency(Weights::committed(), turn, *robot),
{
    urgency_value_with(&weights(), turn, robot)
}

pub open spec fn spec_win_value(w: Weights, turn: &Turn, robot: Robot) -> int {
    spec_kill_score(w, robot) + spec_asset_damage(w, turn, robot) + spec_urgency(w, turn, robot)
        + spec_threat(turn, robot)
}

/// What killing this robot is worth: its kill score, the damage it would
/// still do to us, how soon that lands, and its threat weight.
pub fn win_value_with(weights: &Weights, turn: &Turn, robot: &Robot) -> (v: i64)
    requires
        weights.wf(),
        turn.wf(),
        robot.wf(),
    ensures
        v == spec_win_value(*weights, turn, *robot),
        0 <= v <= 300_000_000,
{
    kill_score_value_with(weights, robot) + asset_damage_value_with(weights, turn, robot)
        + urgency_value_with(weights, turn, robot) + threat(turn, robot)
}

/// As `win_value_with`, against the active dial.
pub fn win_value(turn: &Turn, robot: &Robot) -> (v: i64)
    requires
        turn.wf(),
        robot.wf(),
    ensures
        v == spec_win_value(Weights::committed(), turn, *robot),
{
    win_value_with(&weights(), turn, robot)
}

pub open spec fn spec_hit_value(turn: &Turn, robot: Robot, hp_before: int, dmg: int) -> int {
    let w = Weights::committed();
    let m = if dmg < hp_before { dmg } else { hp_before };
    let dealt = if m > 0 { m } else { 0 };
    let win = spec_win_value(w, turn, robot);
    dealt * w.damage_weight + if dealt >= hp_before {
        win
    } else if hp_before > 0 {
        win * dealt / hp_before / 4
    } else {
        0
    }
}

/// Expected value of `dmg` damage on `robot`: the whole win value when the
/// damage is lethal, a quarter of its share while the robot is only being
/// softened, plus the damage itself.
pub fn hit_value(turn: &Turn, robot: &Robot, hp_before: i64, dmg: i64) -> (v: i64)
    requires
        turn.wf(),
        robot.wf(),
        -1_000_000_000 <= hp_before <= 1_000_000_000,
        -1_000_000_000 <= dmg <= 1_000_000_000,
    ensures
        v == spec_hit_value(turn, *robot, hp_before as int, dmg as int),
        0 <= v <= 2_400_000_000,
{
    let w = weights();
    let m = if dmg < hp_before { dmg } else { hp_before };
    let dealt = if m > 0 { m } else { 0 };
    let mut value = dealt * w.damage_weight;
    let win = win_value_with(&w, turn, robot);
    if dealt >= hp_before {
        value = value + win;
    } else if hp_before > 0 {
        assert(0 <= win * dealt <= 300_000_000 * 1_000_000_000) by (nonlinear_arith)
            requires 0 <= win <= 300_000_000, 0 <= dealt <= 1_000_000_000;
        assert((win * dealt) / (hp_before as int) <= win) by (nonlinear_arith)
            requires 0 <= win, 0 <= dealt < hp_before;
        value = value + win * dealt / hp_before / 4;
    }
    value
}

// ---------------------------------------------------------------------------
// Geometry of a volley
// ---------------------------------------------------------------------------

pub open spec fn dot(tower: Pos, a: Pos, b: Pos) -> int {
    (a.x - tower.x) * (b.x - tower.x) + (a.y - tower.y) * (b.y - tower.y)
}

pub open spec fn spec_within_cone(tower: Pos, targets: Seq<Pos>) -> bool {
    forall|i: int, j: int| 0 <= i < j < targets.len() ==> dot(tower, #[trigger] targets[i], #[trigger] targets[j]) >= 0
}

/// All targets inside one 90° cone: every pair of direction vectors has a
/// non-negative dot product.
pub fn within_cone(tower: Pos, targets: &[Pos]) -> (r: bool)
    requires
        pos_ok(tower),
        all_pos_ok(targets@),
    ensures
        r == spec_within_cone(tower, targets@),
{
    let mut i: usize = 0;
    while i < targets.len()
        invariant
            i <= targets@.len(),
            pos_ok(tower),
            all_pos_ok(targets@),
            forall|a: int, b: int| 0 <= a < i && a < b < targets@.len() ==> dot(tower, #[trigger] targets@[a], #[trigger] targets@[b]) >= 0,
        decreases targets@.len() - i,
    {
        let mut j: usize = i + 1;
        while j < targets.len()
            invariant
                i < targets@.len(),
                i + 1 <= j <= targets@.len(),
                pos_ok(tower),
                all_pos_ok(targets@),
                forall|a: int, b: int| 0 <= a < i && a < b < targets@.len() ==> dot(tower, #[trigger] targets@[a], #[trigger] targets@[b]) >= 0,
                forall|b: int| i < b < j ==> dot(tower, targets@[i as int], #[trigger] targets@[b]) >= 0,
            decreases targets@.len() - j,
        {
            let a = targets[i];
            let b = targets[j];
            assert(pos_ok(a) && pos_ok(b));
            let vx = (a.x - tower.x) as i64;
            let vy = (a.y - tower.y) as i64;
            let wx = (b.x - tower.x) as i64;
            let wy = (b.y - tower.y) as i64;
            assert(-4_000_000_000_000 <= vx * wx <= 4_000_000_000_000) by (nonlinear_arith)
                requires -2_000_000 <= vx <= 2_000_000, -2_000_000 <= wx <= 2_000_000;
            assert(-4_000_000_000_000 <= vy * wy <= 4_000_000_000_000) by (nonlinear_arith)
                requires -2_000_000 <= vy <= 2_000_000, -2_000_000 <= wy <= 2_000_000;
            if vx * wx + vy * wy < 0 {
                assert(dot(tower, targets@[i as int], targets@[j as int]) < 0);
                return false;
            }
            j += 1;
        }
        i += 1;
    }
    true
}

/// `n / d` rounded to the nearest integer, halves away from zero.
pub open spec fn round_div(n: int, d: int) -> int {
    if n >= 0 { (2 * n + d) / (2 * d) } else { -((-2 * n + d) / (2 * d)) }
}

pub open spec fn line_point(a: Pos, b: Pos, steps: int, t: int) -> Pos {
    Pos {
        x: (a.x + round_div((b.x - a.x) * t, steps)) as i32,
        y: (a.y + round_div((b.y - a.y) * t, steps)) as i32,
    }
}

/// Append `p` unless it repeats the last cell.
pub open spec fn push_new(s: Seq<Pos>, p: Pos) -> Seq<Pos> {
    if s.len() > 0 && s.last() == p { s } else { s.push(p) }
}

/// The samples `0..n` of the segment, consecutive repeats dropped.
pub open spec fn line_prefix(a: Pos, b: Pos, steps: int, n: int) -> Seq<Pos>
    decreases n,
{
    if n <= 0 {
        Seq::empty()
    } else {
        push_new(line_prefix(a, b, steps, n - 1), line_point(a, b, steps, n - 1))
    }
}

pub open spec fn line_steps(a: Pos, b: Pos) -> int {
    let dx = crate::model::abs_int(b.x - a.x);
    let dy = crate::model::abs_int(b.y - a.y);
    if dx >= dy { dx } else { dy }
}

pub open spec fn spec_line_cells(a: Pos, b: Pos) -> Seq<Pos> {
    let steps = line_steps(a, b);
    if steps == 0 { seq![a] } else { line_prefix(a, b, steps, steps + 1) }
}

proof fn lemma_round_div_bound(n: int, d: int, bound: int)
    requires
        d > 0,
        -(bound * d) <= n <= bound * d,
        bound >= 0,
    ensures
        -bound <= round_div(n, d) <= bound,
{
    if n >= 0 {
        assert((2 * n + d) / (2 * d) <= bound) by (nonlinear_arith)
            requires 0 <= n <= bound * d, d > 0, bound >= 0;
        assert((2 * n + d) / (2 * d) >= 0) by (nonlinear_arith)
            requires 0 <= n, d > 0;
    } else {
        assert((-2 * n + d) / (2 * d) <= bound) by (nonlinear_arith)
            requires 0 < -n <= bound * d, d > 0, bound >= 0;
        assert((-2 * n + d) / (2 * d) >= 0) by (nonlinear_arith)
            requires 0 < -n, d > 0;
    }
}

fn round_half_away(n: i64, d: i64) -> (r: i64)
    requires
        1 <= d <= 2_000_000,
        -(d * d) <= n <= d * d,
    ensures
        r == round_div(n as int, d as int),
        -d <= r <= d,
{
    proof {
        lemma_round_div_bound(n as int, d as int, d as int);
    }
    assert(d * d <= 4_000_000_000_000) by (nonlinear_arith)
        requires 1 <= d <= 2_000_000;
    if n >= 0 {
        (2 * n + d) / (2 * d)
    } else {
        let num: i64 = -2 * n + d;
        let q: i64 = num / (2 * d);
        assert(0 <= q <= num) by (nonlinear_arith)
            requires num > 0, d >= 1, q == num as int / (2 * d as int);
        -q
    }
}

/// Cells along the segment a→b, both ends included, sampled once per step
/// of the longer axis with each coordinate rounded to the nearest cell
/// (halves away from zero).
pub fn line_cells(a: Pos, b: Pos) -> (cells: Vec<Pos>)
    requires
        pos_ok(a),
        pos_ok(b),
    ensures
        cells@ == spec_line_cells(a, b),
        cells@.len() <= 2_000_001,
{
    let dx: i64 = b.x as i64 - a.x as i64;
    let dy: i64 = b.y as i64 - a.y as i64;
    let adx: i64 = if dx < 0 { -dx } else { dx };
    let ady: i64 = if dy < 0 { -dy } else { dy };
    let steps: i64 = if adx >= ady { adx } else { ady };
    if steps == 0 {
        let v = vec![a];
        assert(v@ =~= seq![a]);
        return v;
    }
    let mut cells: Vec<Pos> = Vec::new();
    let mut t: i64 = 0;
    while t <= steps
        invariant
            0 <= t <= steps + 1,
            pos_ok(a),
            pos_ok(b),
            dx == b.x - a.x,
            dy == b.y - a.y,
            steps == line_steps(a, b),
            1 <= steps <= 2_000_000,
            -steps <= dx <= steps,
            -steps <= dy <= steps,
            cells@ == line_prefix(a, b, steps as int, t as int),
            cells@.len() <= t,
        decreases steps + 1 - t,
    {
        assert(steps * steps <= 4_000_000_000_000) by (nonlinear_arith)
            requires 1 <= steps <= 2_000_000;
        assert(-(steps * steps) <= dx * t <= steps * steps) by (nonlinear_arith)
            requires -steps <= dx <= steps, 0 <= t <= steps;
        assert(-(steps * steps) <= dy * t <= steps * steps) by (nonlinear_arith)
            requires -steps <= dy <= steps, 0 <= t <= steps;
        let nx: i64 = dx * t;
        let ny: i64 = dy * t;
        let rx: i64 = round_half_away(nx, steps);
        let ry: i64 = round_half_away(ny, steps);
        proof {
            lemma_round_div_bound(nx as int, steps as int, steps as int);
            lemma_round_div_bound(ny as int, steps as int, steps as int);
        }
        let x = (a.x as i64 + rx) as i32;
        let y = (a.y as i64 + ry) as i32;
        let pos = Pos { x, y };
        assert(pos == line_point(a, b, steps as int, t as int));
        if cells.len() > 0 && cells[cells.len() - 1] == pos {
        } else {
            cells.push(pos);
        }
        t += 1;
    }
    cells
}

/// `pos` lies inside the reach of `tower`.
pub open spec fn spec_in_range(tower: Unit, pos: Pos) -> bool {
    tower.attack_range >= FULL_MAP_RANGE || cheb(tower.pos, pos) <= tower.attack_range
}

pub fn in_range(tower: &Unit, pos: Pos) -> (r: bool)
    requires
        tower.wf(),
        pos_ok(pos),
    ensures
        r == spec_in_range(*tower, pos),
{
    let range = tower.range_of_attack();
    range >= FULL_MAP_RANGE || chebyshev(tower.pos, pos) <= range
}


// ---------------------------------------------------------------------------
// The round's damage simulation
// ---------------------------------------------------------------------------

/// HP a log of `(id, hp)` entries gives `id`: its latest entry.
pub open spec fn hp_of(s: Seq<(i64, i64)>, id: i64) -> Option<i64>
    decreases s.len(),
{
    if s.len() == 0 {
        None
    } else if s.last().0 == id {
        Some(s.last().1)
    } else {
        hp_of(s.drop_last(), id)
    }
}

/// Simulated HP of a robot: its latest entry, 0 when it has none.
pub open spec fn log_hp(log: Seq<(i64, i64)>, id: i64) -> int {
    match hp_of(log, id) {
        Some(h) => h as int,
        None => 0,
    }
}

/// Simulated HP of a building: its latest entry, its own health when none.
pub open spec fn bhp(log: Seq<(i64, i64)>, unit: Unit) -> int {
    match hp_of(log, unit.id) {
        Some(h) => h as int,
        None => unit.health as int,
    }
}

pub open spec fn hp_log_ok(s: Seq<(i64, i64)>) -> bool {
    forall|i: int| 0 <= i < s.len() ==> 0 <= (#[trigger] s[i]).1 <= 1_000_000_000
}

proof fn lemma_hp_of_ok(s: Seq<(i64, i64)>, id: i64)
    requires
        hp_log_ok(s),
    ensures
        hp_of(s, id) matches Some(h) ==> 0 <= h <= 1_000_000_000,
    decreases s.len(),
{
    if s.len() > 0 {
        assert(s.last() == s[s.len() - 1]);
        assert forall|i: int| 0 <= i < s.drop_last().len() implies 0 <= (#[trigger] s.drop_last()[i]).1 <= 1_000_000_000 by {
            assert(s.drop_last()[i] == s[i]);
        }
        lemma_hp_of_ok(s.drop_last(), id);
    }
}

/// The latest entry of `id` in an HP log.
fn latest(s: &Vec<(i64, i64)>, id: i64) -> (r: Option<i64>)
    ensures
        r == hp_of(s@, id),
{
    let mut i: usize = s.len();
    assert(s@.take(i as int) =~= s@);
    while i > 0
        invariant
            i <= s@.len(),
            hp_of(s@, id) == hp_of(s@.take(i as int), id),
        decreases i,
    {
        assert(s@.take(i as int).drop_last() =~= s@.take(i as int - 1));
        assert(s@.take(i as int).last() == s@[i as int - 1]);
        if s[i - 1].0 == id {
            return Some(s[i - 1].1);
        }
        i -= 1;
    }
    None
}

/// Per-round damage simulation shared by every tower: HP left per robot and
/// per enemy building (the latest entry of each id counts), and the towers
/// that already fired this round.
#[derive(Debug, Clone)]
pub struct Sim {
    pub robots: Vec<(i64, i64)>,
    pub buildings: Vec<(i64, i64)>,
    pub fired: Vec<i64>,
}

impl Sim {
    pub open spec fn wf(&self) -> bool {
        hp_log_ok(self.robots@) && hp_log_ok(self.buildings@)
    }

    pub open spec fn robot_hp(&self, id: i64) -> int {
        log_hp(self.robots@, id)
    }

    pub open spec fn spec_building_hp(&self, unit: Unit) -> int {
        bhp(self.buildings@, unit)
    }

    /// Simulated HP a robot has left.
    pub fn get(&self, id: &i64) -> (r: Option<&i64>)
        ensures
            match r {
                Some(h) => hp_of(self.robots@, *id) == Some(*h),
                None => hp_of(self.robots@, *id) is None,
            },
    {
        let mut i: usize = self.robots.len();
        assert(self.robots@.take(i as int) =~= self.robots@);
        while i > 0
            invariant
                i <= self.robots@.len(),
                hp_of(self.robots@, *id) == hp_of(self.robots@.take(i as int), *id),
            decreases i,
        {
            assert(self.robots@.take(i as int).drop_last() =~= self.robots@.take(i as int - 1));
            assert(self.robots@.take(i as int).last() == self.robots@[i as int - 1]);
            if self.robots[i - 1].0 == *id {
                return Some(&self.robots[i - 1].1);
            }
            i -= 1;
        }
        None
    }

    fn robot_hp_now(&self, id: i64) -> (h: i64)
        requires
            self.wf(),
        ensures
            h == self.robot_hp(id),
            0 <= h <= 1_000_000_000,
    {
        proof {
            lemma_hp_of_ok(self.robots@, id);
        }
        match self.get(&id) {
            Some(h) => *h,
            None => 0,
        }
    }

    /// Simulated HP an enemy building has left (its own health until a tower
    /// has shot at it).
    pub fn building_hp(&self, unit: &Unit) -> (h: i64)
        requires
            self.wf(),
        ensures
            h == self.spec_building_hp(*unit),
    {
        match latest(&self.buildings, unit.id) {
            Some(h) => h,
            None => unit.health,
        }
    }

    /// Take `dmg` off a robot's simulated HP, never below zero.
    fn damage_robot(&mut self, id: i64, dmg: i64)
        requires
            old(self).wf(),
            0 <= dmg <= 1_000_000_000,
        ensures
            final(self).wf(),
            final(self).robots@ == old(self).robots@.push((id, if old(self).robot_hp(id) - dmg > 0 { (old(self).robot_hp(id) - dmg) as i64 } else { 0i64 })),
            final(self).buildings@ == old(self).buildings@,
            final(self).fired@ == old(self).fired@,
    {
        let hp = self.robot_hp_now(id);
        let left = if hp - dmg > 0 { hp - dmg } else { 0 };
        self.robots.push((id, left));
        assert(hp_log_ok(self.robots@)) by {
            assert forall|i: int| 0 <= i < self.robots@.len() implies 0 <= (#[trigger] self.robots@[i]).1 <= 1_000_000_000 by {
                if i < self.robots@.len() - 1 {
                    assert(self.robots@[i] == old(self).robots@[i]);
                }
            }
        }
    }

    /// Take `dmg` off an enemy building's simulated HP, never below zero.
    fn damage_building(&mut self, id: i64, dmg: i64)
        requires
            old(self).wf(),
            0 <= dmg <= 1_000_000_000,
        ensures
            final(self).wf(),
            final(self).buildings@ == old(self).buildings@.push((id, {
                let hp = match hp_of(old(self).buildings@, id) { Some(h) => h as int, None => 0 };
                if hp - dmg > 0 { (hp - dmg) as i64 } else { 0i64 }
            })),
            final(self).robots@ == old(self).robots@,
            final(self).fired@ == old(self).fired@,
    {
        proof {
            lemma_hp_of_ok(self.buildings@, id);
        }
        let hp: i64 = match latest(&self.buildings, id) {
            Some(h) => h,
            None => 0,
        };
        let left = if hp - dmg > 0 { hp - dmg } else { 0 };
        self.buildings.push((id, left));
        assert(hp_log_ok(self.buildings@)) by {
            assert forall|i: int| 0 <= i < self.buildings@.len() implies 0 <= (#[trigger] self.buildings@[i]).1 <= 1_000_000_000 by {
                if i < self.buildings@.len() - 1 {
                    assert(self.buildings@[i] == old(self).buildings@[i]);
                }
            }
        }
    }
}

/// `(id, health)` of every live robot, in robot order.
pub open spec fn robot_entries(s: Seq<Robot>) -> Seq<(i64, i64)>
    decreases s.len(),
{
    if s.len() == 0 {
        Seq::empty()
    } else {
        robot_entries(s.drop_last()) + if s.last().health > 0 { seq![(s.last().id, s.last().health)] } else { Seq::empty() }
    }
}

/// `(id, health)` of every live unit, in unit order.
pub open spec fn unit_entries(s: Seq<Unit>) -> Seq<(i64, i64)>
    decreases s.len(),
{
    if s.len() == 0 {
        Seq::empty()
    } else {
        unit_entries(s.drop_last()) + if s.last().health > 0 { seq![(s.last().id, s.last().health)] } else { Seq::empty() }
    }
}

/// A fresh simulation: every live robot and live enemy building at its
/// current health, no tower fired yet.
pub fn init_sim(turn: &Turn) -> (sim: Sim)
    requires
        turn.wf(),
    ensures
        sim.robots@ == robot_entries(turn.robots@),
        sim.buildings@ == unit_entries(turn.enemy@),
        sim.fired@ == Seq::<i64>::empty(),
        sim.wf(),
{
    let mut robots: Vec<(i64, i64)> = Vec::new();
    let mut i: usize = 0;
    while i < turn.robots.len()
        invariant
            i <= turn.robots@.len(),
            turn.wf(),
            robots@ == robot_entries(turn.robots@.take(i as int)),
            hp_log_ok(robots@),
        decreases turn.robots@.len() - i,
    {
        assert(turn.robots@.take(i as int + 1).drop_last() =~= turn.robots@.take(i as int));
        let r = &turn.robots[i];
        assert(r.wf());
        if r.health > 0 {
            robots.push((r.id, r.health));
        }
        assert(robots@ =~= robot_entries(turn.robots@.take(i as int + 1)));
        i += 1;
    }
    assert(turn.robots@.take(turn.robots@.len() as int) =~= turn.robots@);
    let mut buildings: Vec<(i64, i64)> = Vec::new();
    let mut i: usize = 0;
    while i < turn.enemy.len()
        invariant
            i <= turn.enemy@.len(),
            turn.wf(),
            buildings@ == unit_entries(turn.enemy@.take(i as int)),
            hp_log_ok(buildings@),
        decreases turn.enemy@.len() - i,
    {
        assert(turn.enemy@.take(i as int + 1).drop_last() =~= turn.enemy@.take(i as int));
        let u = &turn.enemy[i];
        assert(u.wf());
        if u.health > 0 {
            buildings.push((u.id, u.health));
        }
        assert(buildings@ =~= unit_entries(turn.enemy@.take(i as int + 1)));
        i += 1;
    }
    assert(turn.enemy@.take(turn.enemy@.len() as int) =~= turn.enemy@);
    Sim { robots, buildings, fired: Vec::new() }
}

// ---------------------------------------------------------------------------
// Volleys, hit points and fire capacity
// ---------------------------------------------------------------------------

pub open spec fn level_or_one(level: i32) -> int {
    if level > 1 { level as int } else { 1 }
}

pub open spec fn railgun_energy(tower: Unit) -> int {
    if tower.attack_power > 0 {
        tower.attack_power as int
    } else {
        let l = level_or_one(tower.level);
        if l == 1 { 10 } else if l == 2 { 20 } else { 30 }
    }
}

pub open spec fn spec_shot_damage(tower: Unit) -> int {
    match tower.kind {
        UnitKind::Gatling => 10,
        UnitKind::Railgun => railgun_energy(tower),
        UnitKind::Rocket => 20,
        _ => 0,
    }
}

fn railgun_energy_of(tower: &Unit) -> (e: i64)
    requires
        tower.wf(),
    ensures
        e == railgun_energy(*tower),
        1 <= e <= 1_000_000,
{
    if tower.attack_power > 0 {
        tower.attack_power
    } else {
        let l = if tower.level > 1 { tower.level } else { 1 };
        if l == 1 { 10 } else if l == 2 { 20 } else { 30 }
    }
}

/// Damage a single projectile of `tower` deals to one building.
fn tower_shot_damage(tower: &Unit) -> (d: i64)
    requires
        tower.wf(),
    ensures
        d == spec_shot_damage(*tower),
        0 <= d <= 1_000_000,
{
    match tower.kind {
        UnitKind::Gatling => 10,
        UnitKind::Railgun => railgun_energy_of(tower),
        UnitKind::Rocket => 20,
        _ => 0,
    }
}

pub open spec fn volley_shots(tower: Unit) -> int {
    let n = spec_tower_projectiles(tower.kind, level_or_one(tower.level));
    if n > 1 { n } else { 1 }
}

pub open spec fn spec_volley_damage(tower: Unit) -> int {
    spec_shot_damage(tower) * volley_shots(tower)
}

/// Damage `tower` puts on one building if it aims its whole volley at it.
fn tower_volley_damage(tower: &Unit) -> (d: i64)
    requires
        tower.wf(),
    ensures
        d == spec_volley_damage(*tower),
        0 <= d <= 1_000_000_000,
{
    let l = if tower.level > 1 { tower.level } else { 1 };
    let n = crate::model::tower_projectiles(tower.kind, l);
    let n: i64 = if n > 1 { n as i64 } else { 1 };
    let s = tower_shot_damage(tower);
    assert(0 <= s * n <= 1_000_000_000) by (nonlinear_arith)
        requires 0 <= s <= 1_000_000, 1 <= n <= 1000;
    s * n
}

pub open spec fn spec_station_max_hp(level: i32) -> int {
    let l = if level > 1 { level as int } else { 1 };
    if l == 1 { 1500 } else if l == 2 { 3000 } else { 4500 }
}

/// Full HP of a station at the given level.
pub fn station_max_hp(level: i32) -> (h: i64)
    ensures
        h == spec_station_max_hp(level),
{
    let l = if level > 1 { level } else { 1 };
    if l == 1 { 1500 } else if l == 2 { 3000 } else { 4500 }
}

pub open spec fn spec_wall_max_hp(level: i32) -> int {
    let l = if level > 1 { level as int } else { 1 };
    if l == 1 { 1000 } else if l == 2 { 1500 } else { 2000 }
}

/// Full HP of a wall at the given level.
pub fn wall_max_hp(level: i32) -> (h: i64)
    ensures
        h == spec_wall_max_hp(level),
{
    let l = if level > 1 { level } else { 1 };
    if l == 1 { 1000 } else if l == 2 { 1500 } else { 2000 }
}

pub open spec fn spec_wave_hp(day: int) -> int {
    (50 + 20 * (if day > 1 { day } else { 1 })) * 45
}

/// Estimated total HP of tonight's robot wave: `50 + 20·day` robots at a
/// 45 HP blended average.
pub fn estimated_wave_hp(day: i64) -> (h: i64)
    requires
        day <= 1_000_000,
    ensures
        h == spec_wave_hp(day as int),
{
    let d = if day > 1 { day } else { 1 };
    (50 + 20 * d) * 45
}

/// What one tower puts out over a 60-round night, its level shifted by
/// `bump` when its id is `bump_id`.
pub open spec fn tower_night_fire(tower: Unit, bump_id: i64, bump: int) -> int {
    if !is_live_tower(tower) {
        0
    } else {
        let raw = if tower.id == bump_id { tower.level + bump } else { tower.level as int };
        let level = if raw > 1 { raw } else { 1 };
        let per_round = match tower.kind {
            UnitKind::Gatling => 10 * level,
            UnitKind::Railgun => if tower.attack_power > 0 { tower.attack_power as int } else { 10 * level },
            UnitKind::Rocket => 20 * level / 3,
            _ => 0,
        };
        per_round * 60
    }
}

pub open spec fn fire_sum(s: Seq<Unit>, bump_id: i64, bump: int) -> int
    decreases s.len(),
{
    if s.len() == 0 {
        0
    } else {
        fire_sum(s.drop_last(), bump_id, bump) + tower_night_fire(s.last(), bump_id, bump)
    }
}

fn tower_fire(tower: &Unit, bump_id: i64, bump: i32) -> (f: i64)
    requires
        tower.wf(),
        -1000 <= bump <= 1000,
    ensures
        f == tower_night_fire(*tower, bump_id, bump as int),
        0 <= f <= 60_000_000,
{
    if !(tower.kind.is_tower() && tower.health > 0) {
        return 0;
    }
    let raw: i64 = if tower.id == bump_id { tower.level as i64 + bump as i64 } else { tower.level as i64 };
    let level: i64 = if raw > 1 { raw } else { 1 };
    let per_round: i64 = match tower.kind {
        UnitKind::Gatling => 10 * level,
        UnitKind::Railgun => if tower.attack_power > 0 { tower.attack_power } else { 10 * level },
        UnitKind::Rocket => 20 * level / 3,
        _ => 0,
    };
    per_round * 60
}

/// Night fire capacity with one tower's level shifted, so the funding order
/// can ask what a voucher would buy.
fn night_fire_capacity_with(turn: &Turn, bump_id: i64, bump: i32) -> (c: i64)
    requires
        turn.wf(),
        -1000 <= bump <= 1000,
    ensures
        c == fire_sum(turn.ours@, bump_id, bump as int),
        0 <= c <= 60_000_000 * turn.ours@.len(),
{
    let mut total: i64 = 0;
    let mut i: usize = 0;
    while i < turn.ours.len()
        invariant
            i <= turn.ours@.len(),
            turn.wf(),
            -1000 <= bump <= 1000,
            total == fire_sum(turn.ours@.take(i as int), bump_id, bump as int),
            0 <= total <= 60_000_000 * i,
        decreases turn.ours@.len() - i,
    {
        assert(turn.ours@.take(i as int + 1).drop_last() =~= turn.ours@.take(i as int));
        assert(turn.ours@[i as int].wf());
        let f = tower_fire(&turn.ours[i], bump_id, bump);
        total = total + f;
        i += 1;
    }
    assert(turn.ours@.take(turn.ours@.len() as int) =~= turn.ours@);
    total
}

/// Damage our towers can put out across one 60-round night, every tower
/// manned every round (the rocket's cooldown amortised to a third).
pub fn night_fire_capacity(turn: &Turn) -> (c: i64)
    requires
        turn.wf(),
    ensures
        c == fire_sum(turn.ours@, -1i64, 0),
        0 <= c <= 600_000_000_000,
{
    night_fire_capacity_with(turn, -1, 0)
}

/// Tonight's clear gap: positive when the wave out-HPs our guns.
pub fn firepower_gap(turn: &Turn) -> (g: i64)
    requires
        turn.wf(),
    ensures
        g == spec_wave_hp(turn.day as int) - fire_sum(turn.ours@, -1i64, 0),
{
    estimated_wave_hp(turn.day) - night_fire_capacity(turn)
}

/// The best gain one more level on one tower of `s` (live, below level 3)
/// adds to the night fire capacity of `all`, if any tower qualifies.
pub open spec fn best_gain(all: Seq<Unit>, s: Seq<Unit>) -> Option<int>
    decreases s.len(),
{
    if s.len() == 0 {
        None
    } else {
        let rest = best_gain(all, s.drop_last());
        let t = s.last();
        if is_live_tower(t) && t.level < 3 {
            let gain = fire_sum(all, t.id, 1) - fire_sum(all, -1i64, 0);
            match rest {
                None => Some(gain),
                Some(r) => Some(if gain > r { gain } else { r }),
            }
        } else {
            rest
        }
    }
}

/// The most night fire capacity one more weapon level can still add: the
/// best single step among the towers not yet at level 3 (0 when all are).
pub fn best_weapon_step_gain(turn: &Turn) -> (g: i64)
    requires
        turn.wf(),
    ensures
        g == match best_gain(turn.ours@, turn.ours@) { Some(v) => v, None => 0 },
{
    let base = night_fire_capacity(turn);
    let mut best: i64 = 0;
    let mut any = false;
    let mut i: usize = 0;
    while i < turn.ours.len()
        invariant
            i <= turn.ours@.len(),
            turn.wf(),
            base == fire_sum(turn.ours@, -1i64, 0),
            0 <= base <= 600_000_000_000,
            match best_gain(turn.ours@, turn.ours@.take(i as int)) {
                Some(v) => any && best == v,
                None => !any && best == 0,
            },
            -600_000_000_000 <= best <= 600_000_000_000,
        decreases turn.ours@.len() - i,
    {
        assert(turn.ours@.take(i as int + 1).drop_last() =~= turn.ours@.take(i as int));
        assert(turn.ours@.take(i as int + 1).last() == turn.ours@[i as int]);
        let t = &turn.ours[i];
        if t.kind.is_tower() && t.health > 0 && t.level < 3 {
            let with = night_fire_capacity_with(turn, t.id, 1);
            let gain = with - base;
            if !any || gain > best {
                best = gain;
            }
            any = true;
        }
        i += 1;
    }
    assert(turn.ours@.take(turn.ours@.len() as int) =~= turn.ours@);
    best
}

/// Large robots and bosses are worth panicking about.
pub fn is_big_threat(kind: RobotKind) -> (r: bool)
    ensures
        r == (kind == RobotKind::Large || kind == RobotKind::Boss),
{
    match kind {
        RobotKind::Large | RobotKind::Boss => true,
        _ => false,
    }
}


// ---------------------------------------------------------------------------
// Who needs shooting, and what the enemy's buildings are worth
// ---------------------------------------------------------------------------

/// A tower that can fire this round.
pub open spec fn ready(t: Unit) -> bool {
    is_live_tower(t) && t.cooldown == 0
}

pub open spec fn covered(turn: &Turn, p: Pos) -> bool {
    exists|j: int| 0 <= j < turn.ours@.len() && ready(#[trigger] turn.ours@[j]) && spec_in_range(turn.ours@[j], p)
}

fn ready_tower_covers(turn: &Turn, p: Pos) -> (r: bool)
    requires
        turn.wf(),
        pos_ok(p),
    ensures
        r == covered(turn, p),
{
    let mut j: usize = 0;
    while j < turn.ours.len()
        invariant
            j <= turn.ours@.len(),
            turn.wf(),
            pos_ok(p),
            forall|k: int| 0 <= k < j ==> !(ready(#[trigger] turn.ours@[k]) && spec_in_range(turn.ours@[k], p)),
        decreases turn.ours@.len() - j,
    {
        let t = &turn.ours[j];
        assert(t.wf());
        if t.kind.is_tower() && t.health > 0 && t.cooldown == 0 && in_range(t, p) {
            return true;
        }
        j += 1;
    }
    false
}

pub open spec fn spec_spare_firepower(turn: &Turn) -> bool {
    !exists|i: int| 0 <= i < turn.robots@.len() && (#[trigger] turn.robots@[i]).health > 0
        && spec_threat(turn, turn.robots@[i]) > 0 && !covered(turn, turn.robots@[i].pos)
}

/// True when every robot marching on us is covered by a ready tower — the
/// firepower to spare for the opponent.
pub fn spare_firepower(turn: &Turn) -> (r: bool)
    requires
        turn.wf(),
    ensures
        r == spec_spare_firepower(turn),
{
    let mut i: usize = 0;
    while i < turn.robots.len()
        invariant
            i <= turn.robots@.len(),
            turn.wf(),
            forall|k: int| 0 <= k < i ==> !((#[trigger] turn.robots@[k]).health > 0
                && spec_threat(turn, turn.robots@[k]) > 0 && !covered(turn, turn.robots@[k].pos)),
        decreases turn.robots@.len() - i,
    {
        let r = &turn.robots[i];
        assert(r.wf());
        if r.health > 0 && threat(turn, r) > 0 && !ready_tower_covers(turn, r.pos) {
            return false;
        }
        i += 1;
    }
    true
}

/// Robots shoot three cells.
pub const ROBOT_ATTACK_RANGE: i32 = 3;

pub open spec fn spec_station_safe(turn: &Turn) -> bool {
    match turn.spec_station() {
        None => false,
        Some(st) => !exists|i: int| 0 <= i < turn.robots@.len() && hunts_us(turn, #[trigger] turn.robots@[i])
            && fp_dist(turn.robots@[i].pos, spec_station_footprint(st.pos)) <= ROBOT_ATTACK_RANGE,
    }
}

/// Our station is not being hit this round: no robot hunting us stands within
/// its attack range of the station footprint.
pub fn station_safe(turn: &Turn) -> (r: bool)
    requires
        turn.wf(),
    ensures
        r == spec_station_safe(turn),
{
    proof {
        crate::brain::action::base_layout::lemma_station_wf(turn);
    }
    let station = match turn.station() {
        Some(s) => s,
        None => return false,
    };
    let fp = station_footprint(station.pos);
    let mut i: usize = 0;
    while i < turn.robots.len()
        invariant
            i <= turn.robots@.len(),
            turn.wf(),
            fp@ == spec_station_footprint(station.pos),
            turn.spec_station() == Some(*station),
            all_pos_ok(fp@),
            forall|k: int| 0 <= k < i ==> !(hunts_us(turn, #[trigger] turn.robots@[k])
                && fp_dist(turn.robots@[k].pos, fp@) <= ROBOT_ATTACK_RANGE),
        decreases turn.robots@.len() - i,
    {
        let r = &turn.robots[i];
        assert(r.wf());
        if r.health > 0 && r.target_team == turn.team_type && footprint_distance(r.pos, &fp) <= ROBOT_ATTACK_RANGE {
            assert(hunts_us(turn, turn.robots@[i as int])
                && fp_dist(turn.robots@[i as int].pos, spec_station_footprint(station.pos)) <= ROBOT_ATTACK_RANGE);
            return false;
        }
        i += 1;
    }
    true
}

/// Index of the opponent's first live station.
pub open spec fn enemy_live_station(turn: &Turn) -> Option<int> {
    Turn::first_station(turn.enemy@)
}

fn find_enemy_live_station(turn: &Turn) -> (r: Option<usize>)
    requires
        turn.wf(),
    ensures
        match r {
            Some(k) => enemy_live_station(turn) == Some(k as int) && k < turn.enemy@.len(),
            None => enemy_live_station(turn) is None,
        },
{
    proof {
        crate::model::lemma_first_station(turn.enemy@);
    }
    let mut i: usize = 0;
    while i < turn.enemy.len()
        invariant
            i <= turn.enemy@.len(),
            forall|j: int| 0 <= j < i ==> !((#[trigger] turn.enemy@[j]).kind == UnitKind::Station && turn.enemy@[j].health > 0),
        decreases turn.enemy@.len() - i,
    {
        if turn.enemy[i].kind == UnitKind::Station && turn.enemy[i].health > 0 {
            proof {
                crate::model::lemma_first_station(turn.enemy@);
                let k = Turn::first_station(turn.enemy@);
                assert(k is Some);
                let kk = k->0;
                assert(!(kk < i as int));
                assert(!(i < kk));
            }
            return Some(i);
        }
        i += 1;
    }
    None
}

pub open spec fn spec_enemy_station_damaged(turn: &Turn, blog: Seq<(i64, i64)>) -> bool {
    match turn.spec_enemy_station() {
        Some(st) => st.health > 0 && bhp(blog, st) < spec_station_max_hp(st.level),
        None => false,
    }
}

/// Their station is already hurt: below the full HP of its level, counting
/// the damage earlier towers committed this round.
pub fn enemy_station_damaged(turn: &Turn, sim: &Sim) -> (r: bool)
    requires
        sim.wf(),
    ensures
        r == spec_enemy_station_damaged(turn, sim.buildings@),
{
    match turn.enemy_station() {
        Some(st) => st.health > 0 && sim.building_hp(st) < station_max_hp(st.level),
        None => false,
    }
}

pub open spec fn fp_in_range(tower: Unit, fp: Seq<Pos>) -> bool {
    exists|c: int| 0 <= c < fp.len() && spec_in_range(tower, #[trigger] fp[c])
}

fn footprint_in_range(tower: &Unit, fp: &Vec<Pos>) -> (r: bool)
    requires
        tower.wf(),
        all_pos_ok(fp@),
    ensures
        r == fp_in_range(*tower, fp@),
{
    let mut c: usize = 0;
    while c < fp.len()
        invariant
            c <= fp@.len(),
            tower.wf(),
            all_pos_ok(fp@),
            forall|k: int| 0 <= k < c ==> !spec_in_range(*tower, #[trigger] fp@[k]),
        decreases fp@.len() - c,
    {
        if in_range(tower, fp[c]) {
            return true;
        }
        c += 1;
    }
    false
}

/// Volleys the ready towers that have not fired yet can put on `fp`.
pub open spec fn volley_sum(s: Seq<Unit>, fp: Seq<Pos>, fired: Seq<i64>) -> int
    decreases s.len(),
{
    if s.len() == 0 {
        0
    } else {
        let t = s.last();
        volley_sum(s.drop_last(), fp, fired)
            + if ready(t) && !fired.contains(t.id) && fp_in_range(t, fp) { spec_volley_damage(t) } else { 0 }
    }
}

pub open spec fn spec_station_killable(turn: &Turn, blog: Seq<(i64, i64)>, fired: Seq<i64>) -> bool {
    match enemy_live_station(turn) {
        None => false,
        Some(k) => {
            let st = turn.enemy@[k];
            let hp = bhp(blog, st);
            let fp = st.spec_footprint();
            &&& hp > 0
            &&& exists|c: int| 0 <= c < fp.len() && covered(turn, #[trigger] fp[c])
            &&& volley_sum(turn.ours@, fp, fired) >= hp
        },
    }
}

fn contains_i64(s: &Vec<i64>, v: i64) -> (r: bool)
    ensures
        r == s@.contains(v),
{
    let mut i: usize = 0;
    while i < s.len()
        invariant
            i <= s@.len(),
            forall|j: int| 0 <= j < i ==> s@[j] != v,
        decreases s@.len() - i,
    {
        if s[i] == v {
            assert(s@[i as int] == v);
            return true;
        }
        i += 1;
    }
    false
}

/// Can the towers still to fire this round level the enemy station? When
/// this holds the station outranks everything.
pub fn station_killable(turn: &Turn, sim: &Sim) -> (r: bool)
    requires
        turn.wf(),
        sim.wf(),
    ensures
        r == spec_station_killable(turn, sim.buildings@, sim.fired@),
{
    let k = match find_enemy_live_station(turn) {
        Some(k) => k,
        None => return false,
    };
    let st = &turn.enemy[k];
    assert(st.wf());
    let hp = sim.building_hp(st);
    if hp <= 0 {
        return false;
    }
    let fp = st.footprint();
    let mut c: usize = 0;
    let mut reachable = false;
    while c < fp.len()
        invariant
            c <= fp@.len(),
            turn.wf(),
            all_pos_ok(fp@),
            !reachable ==> forall|j: int| 0 <= j < c ==> !covered(turn, #[trigger] fp@[j]),
            reachable ==> exists|j: int| 0 <= j < fp@.len() && covered(turn, #[trigger] fp@[j]),
        decreases fp@.len() - c,
    {
        if ready_tower_covers(turn, fp[c]) {
            reachable = true;
        }
        c += 1;
    }
    if !reachable {
        return false;
    }
    let mut total: i64 = 0;
    let mut i: usize = 0;
    while i < turn.ours.len()
        invariant
            i <= turn.ours@.len(),
            turn.wf(),
            sim.wf(),
            all_pos_ok(fp@),
            total == volley_sum(turn.ours@.take(i as int), fp@, sim.fired@),
            0 <= total <= 1_000_000_000 * i,
        decreases turn.ours@.len() - i,
    {
        assert(turn.ours@.take(i as int + 1).drop_last() =~= turn.ours@.take(i as int));
        let t = &turn.ours[i];
        assert(t.wf());
        if t.kind.is_tower() && t.health > 0 && t.cooldown == 0 && !contains_i64(&sim.fired, t.id)
            && footprint_in_range(t, &fp) {
            total = total + tower_volley_damage(t);
        }
        i += 1;
    }
    assert(turn.ours@.take(turn.ours@.len() as int) =~= turn.ours@);
    total >= hp
}

pub open spec fn spec_station_focus(w: Weights, turn: &Turn, tower: Unit, blog: Seq<(i64, i64)>) -> bool {
    w.station_focus != 0 && match enemy_live_station(turn) {
        None => false,
        Some(k) => {
            let st = turn.enemy@[k];
            let hp = bhp(blog, st);
            hp > 0 && fp_in_range(tower, st.spec_footprint())
                && (tower.attack_range >= FULL_MAP_RANGE || hp < spec_station_max_hp(st.level))
        },
    }
}

/// Sustained enemy-station pressure: a full-map tower, or any tower facing
/// an already-damaged station it can reach, aims at the station.
pub fn station_focus_with(weights: &Weights, turn: &Turn, tower: &Unit, sim: &Sim) -> (r: bool)
    requires
        turn.wf(),
        tower.wf(),
        sim.wf(),
    ensures
        r == spec_station_focus(*weights, turn, *tower, sim.buildings@),
{
    if weights.station_focus == 0 {
        return false;
    }
    let k = match find_enemy_live_station(turn) {
        Some(k) => k,
        None => return false,
    };
    let st = &turn.enemy[k];
    assert(st.wf());
    let hp = sim.building_hp(st);
    if hp <= 0 {
        return false;
    }
    let fp = st.footprint();
    if !footprint_in_range(tower, &fp) {
        return false;
    }
    tower.range_of_attack() >= FULL_MAP_RANGE || hp < station_max_hp(st.level)
}

/// As `station_focus_with`, against the active dial.
pub fn station_focus(turn: &Turn, tower: &Unit, sim: &Sim) -> (r: bool)
    requires
        turn.wf(),
        tower.wf(),
        sim.wf(),
    ensures
        r == spec_station_focus(Weights::committed(), turn, *tower, sim.buildings@),
{
    station_focus_with(&weights(), turn, tower, sim)
}

pub open spec fn breachable(tower: Unit, blog: Seq<(i64, i64)>, wall: Unit) -> bool {
    let hp = bhp(blog, wall);
    is_live_wall(wall) && hp > 0 && hp <= spec_volley_damage(tower) && spec_in_range(tower, wall.pos)
}

pub open spec fn spec_wall_breach(w: Weights, turn: &Turn, tower: Unit, blog: Seq<(i64, i64)>) -> bool {
    &&& w.wall_breach_value > 0
    &&& spec_spare_firepower(turn)
    &&& exists|i: int| 0 <= i < turn.robots@.len() && (#[trigger] turn.robots@[i]).health > 0
        && turn.robots@[i].target_team != turn.team_type
    &&& (spec_enemy_station_damaged(turn, blog) || spec_station_safe(turn))
    &&& exists|i: int| 0 <= i < turn.enemy@.len() && breachable(tower, blog, #[trigger] turn.enemy@[i])
}

/// Should this tower spend a spare volley opening a hole in the opponent's
/// wall line? Only with firepower to spare, a robot marching on them, their
/// station hurt or ours not under attack, and an enemy wall in reach whose
/// remaining HP this volley covers.
pub fn wall_breach_with(weights: &Weights, turn: &Turn, tower: &Unit, sim: &Sim) -> (r: bool)
    requires
        turn.wf(),
        tower.wf(),
        sim.wf(),
    ensures
        r == spec_wall_breach(*weights, turn, *tower, sim.buildings@),
{
    if weights.wall_breach_value <= 0 {
        return false;
    }
    if !spare_firepower(turn) {
        return false;
    }
    let mut i: usize = 0;
    let mut marching = false;
    while i < turn.robots.len()
        invariant
            i <= turn.robots@.len(),
            !marching ==> forall|k: int| 0 <= k < i ==> !((#[trigger] turn.robots@[k]).health > 0
                && turn.robots@[k].target_team != turn.team_type),
            marching ==> exists|k: int| 0 <= k < turn.robots@.len() && (#[trigger] turn.robots@[k]).health > 0
                && turn.robots@[k].target_team != turn.team_type,
        decreases turn.robots@.len() - i,
    {
        if turn.robots[i].health > 0 && turn.robots[i].target_team != turn.team_type {
            marching = true;
        }
        i += 1;
    }
    if !marching {
        return false;
    }
    if !enemy_station_damaged(turn, sim) && !station_safe(turn) {
        return false;
    }
    let damage = tower_volley_damage(tower);
    let mut i: usize = 0;
    while i < turn.enemy.len()
        invariant
            i <= turn.enemy@.len(),
            turn.wf(),
            tower.wf(),
            sim.wf(),
            damage == spec_volley_damage(*tower),
            weights.wall_breach_value > 0,
            spec_spare_firepower(turn),
            exists|k: int| 0 <= k < turn.robots@.len() && (#[trigger] turn.robots@[k]).health > 0
                && turn.robots@[k].target_team != turn.team_type,
            spec_enemy_station_damaged(turn, sim.buildings@) || spec_station_safe(turn),
            forall|k: int| 0 <= k < i ==> !breachable(*tower, sim.buildings@, #[trigger] turn.enemy@[k]),
        decreases turn.enemy@.len() - i,
    {
        let u = &turn.enemy[i];
        assert(u.wf());
        if u.kind == UnitKind::Wall && u.health > 0 {
            let hp = sim.building_hp(u);
            if hp > 0 && hp <= damage && in_range(tower, u.pos) {
                assert(breachable(*tower, sim.buildings@, turn.enemy@[i as int]));
                return true;
            }
        }
        i += 1;
    }
    false
}

/// As `wall_breach_with`, against the active dial.
pub fn wall_breach(turn: &Turn, tower: &Unit, sim: &Sim) -> (r: bool)
    requires
        turn.wf(),
        tower.wf(),
        sim.wf(),
    ensures
        r == spec_wall_breach(Weights::committed(), turn, *tower, sim.buildings@),
{
    wall_breach_with(&weights(), turn, tower, sim)
}

/// Rounds a target is expected to stay inside this tower's reach.
pub open spec fn spec_window(tower: Unit, cell: Pos) -> int {
    if tower.attack_range >= FULL_MAP_RANGE {
        8
    } else {
        let m = tower.attack_range - cheb(tower.pos, cell);
        let margin = if m > 0 { m } else { 0 };
        if margin + 1 < 8 { margin + 1 } else { 8 }
    }
}

fn visibility_window(tower: &Unit, cell: Pos) -> (w: i64)
    requires
        tower.wf(),
        pos_ok(cell),
    ensures
        w == spec_window(*tower, cell),
        1 <= w <= 8,
{
    let range = tower.range_of_attack();
    if range >= FULL_MAP_RANGE {
        return 8;
    }
    let m = range as i64 - chebyshev(tower.pos, cell) as i64;
    let margin = if m > 0 { m } else { 0 };
    if margin + 1 < 8 { margin + 1 } else { 8 }
}

/// Some live enemy gun stands next to `p`: the unit there mans it.
pub open spec fn manning(turn: &Turn, p: Pos) -> bool {
    exists|i: int| 0 <= i < turn.enemy@.len() && is_live_tower(#[trigger] turn.enemy@[i])
        && cheb(turn.enemy@[i].pos, p) <= 1
}

pub open spec fn spec_enemy_unit_value(w: Weights, turn: &Turn, unit: Unit) -> int {
    match unit.kind {
        UnitKind::Station => w.station_value as int,
        UnitKind::Pioneer | UnitKind::Worker => if manning(turn, unit.pos) { w.operator_value as int } else { w.role_value as int },
        UnitKind::Gatling | UnitKind::Railgun | UnitKind::Rocket => w.tower_value as int,
        UnitKind::Wall => w.wall_value as int,
        UnitKind::Unknown => 0,
    }
}

/// What disabling one enemy unit is worth; an operator next to one of their
/// guns is worth most, because it is what makes that gun fire.
fn enemy_unit_value_with(weights: &Weights, turn: &Turn, unit: &Unit) -> (v: i64)
    requires
        weights.wf(),
        turn.wf(),
        unit.wf(),
    ensures
        v == spec_enemy_unit_value(*weights, turn, *unit),
        0 <= v <= 1_000_000,
{
    match unit.kind {
        UnitKind::Station => weights.station_value,
        UnitKind::Pioneer | UnitKind::Worker => {
            let mut i: usize = 0;
            while i < turn.enemy.len()
                invariant
                    i <= turn.enemy@.len(),
                    turn.wf(),
                    unit.wf(),
                    weights.wf(),
                    unit.kind == UnitKind::Pioneer || unit.kind == UnitKind::Worker,
                    forall|k: int| 0 <= k < i ==> !(is_live_tower(#[trigger] turn.enemy@[k]) && cheb(turn.enemy@[k].pos, unit.pos) <= 1),
                decreases turn.enemy@.len() - i,
            {
                let o = &turn.enemy[i];
                assert(o.wf());
                if o.kind.is_tower() && o.health > 0 && chebyshev(o.pos, unit.pos) <= 1 {
                    assert(is_live_tower(turn.enemy@[i as int]) && cheb(turn.enemy@[i as int].pos, unit.pos) <= 1);
                    return weights.operator_value;
                }
                i += 1;
            }
            weights.role_value
        },
        UnitKind::Gatling | UnitKind::Railgun | UnitKind::Rocket => weights.tower_value,
        UnitKind::Wall => weights.wall_value,
        UnitKind::Unknown => 0,
    }
}

/// The smallest window over `cells` (1 when there are none).
pub open spec fn min_window(tower: Unit, cells: Seq<Pos>) -> int
    decreases cells.len(),
{
    if cells.len() == 0 {
        1
    } else if cells.len() == 1 {
        spec_window(tower, cells[0])
    } else {
        let rest = min_window(tower, cells.drop_last());
        let w = spec_window(tower, cells.last());
        if w < rest { w } else { rest }
    }
}

pub open spec fn spec_enemy_unit_score(w: Weights, turn: &Turn, tower: Unit, unit: Unit, cells: Seq<Pos>, blog: Seq<(i64, i64)>) -> int {
    let hp = bhp(blog, unit);
    if hp <= 0 || cells.len() == 0 {
        0
    } else {
        let raw = spec_volley_damage(tower) * 100 / hp;
        let kill_prob = if raw > 100 { 100 } else { raw };
        let base = kill_prob * spec_enemy_unit_value(w, turn, unit) / 100;
        base + base * w.urgency_lead / min_window(tower, cells)
    }
}

/// Value of aiming this tower's whole volley at `unit`: kill probability ×
/// disable value, raised when the unit is about to leave our reach.
pub fn enemy_unit_score_with(weights: &Weights, turn: &Turn, tower: &Unit, unit: &Unit, cells: &[Pos], sim: &Sim) -> (v: i64)
    requires
        weights.wf(),
        turn.wf(),
        tower.wf(),
        unit.wf(),
        sim.wf(),
        all_pos_ok(cells@),
    ensures
        v == spec_enemy_unit_score(*weights, turn, *tower, *unit, cells@, sim.buildings@),
        0 <= v <= 2_000_000_000_000,
{
    let hp = sim.building_hp(unit);
    if hp <= 0 || cells.len() == 0 {
        return 0;
    }
    let damage = tower_volley_damage(tower);
    assert(0 <= damage * 100 <= 100_000_000_000);
    let raw = damage * 100 / hp;
    assert(raw >= 0) by (nonlinear_arith)
        requires damage >= 0, hp > 0, raw == (damage * 100) as int / hp as int;
    let kill_prob = if raw > 100 { 100 } else { raw };
    let value = enemy_unit_value_with(weights, turn, unit);
    assert(0 <= kill_prob * value <= 100_000_000) by (nonlinear_arith)
        requires 0 <= kill_prob <= 100, 0 <= value <= 1_000_000;
    let base = kill_prob * value / 100;
    let mut window: i64 = 1;
    let mut c: usize = 0;
    while c < cells.len()
        invariant
            c <= cells@.len(),
            tower.wf(),
            all_pos_ok(cells@),
            window == min_window(*tower, cells@.take(c as int)),
            1 <= window <= 8,
        decreases cells@.len() - c,
    {
        assert(cells@.take(c as int + 1).drop_last() =~= cells@.take(c as int));
        assert(cells@.take(c as int + 1).last() == cells@[c as int]);
        let wv = visibility_window(tower, cells[c]);
        if c == 0 || wv < window {
            window = wv;
        }
        c += 1;
    }
    assert(cells@.take(cells@.len() as int) =~= cells@);
    let lead = weights.urgency_lead;
    assert(0 <= base * lead <= 1_000_000 * 1_000_000) by (nonlinear_arith)
        requires 0 <= base <= 1_000_000, 0 <= lead <= 1_000_000;
    assert((base * lead) / (window as int) <= base * lead) by (nonlinear_arith)
        requires base * lead >= 0, window >= 1;
    base + base * lead / window
}

pub open spec fn threat_share(turn: &Turn, tower: Unit, robot: Robot) -> int {
    if robot.health > 0 && spec_in_range(tower, robot.pos) {
        let marching = spec_threat(turn, robot);
        if marching > 0 {
            marching + robot.kind.spec_score()
        } else if cheb(tower.pos, robot.pos) <= 5 {
            robot.kind.spec_score()
        } else {
            0
        }
    } else {
        0
    }
}

pub open spec fn threat_sum(turn: &Turn, tower: Unit, s: Seq<Robot>) -> int
    decreases s.len(),
{
    if s.len() == 0 {
        0
    } else {
        threat_sum(turn, tower, s.drop_last()) + threat_share(turn, tower, s.last())
    }
}

/// Total threat a tower can engage: robots marching on us in its reach, and
/// robots already within five cells of it.
pub fn threat_load(turn: &Turn, tower: &Unit) -> (v: i64)
    requires
        turn.wf(),
        tower.wf(),
    ensures
        v == threat_sum(turn, *tower, turn.robots@),
{
    let mut total: i64 = 0;
    let mut i: usize = 0;
    while i < turn.robots.len()
        invariant
            i <= turn.robots@.len(),
            turn.wf(),
            tower.wf(),
            total == threat_sum(turn, *tower, turn.robots@.take(i as int)),
            0 <= total <= 63 * i,
        decreases turn.robots@.len() - i,
    {
        assert(turn.robots@.take(i as int + 1).drop_last() =~= turn.robots@.take(i as int));
        assert(turn.robots@.take(i as int + 1).last() == turn.robots@[i as int]);
        let r = &turn.robots[i];
        assert(r.wf());
        if r.health > 0 && in_range(tower, r.pos) {
            let marching = threat(turn, r);
            if marching > 0 {
                total = total + marching + r.kind.score();
            } else if chebyshev(tower.pos, r.pos) <= 5 {
                total = total + r.kind.score();
            }
        }
        i += 1;
    }
    assert(turn.robots@.take(turn.robots@.len() as int) =~= turn.robots@);
    total
}


// ---------------------------------------------------------------------------
// Items: bomb, dizzy weapon, wall fixer
// ---------------------------------------------------------------------------

/// The first robot of `s` whose value under `f` is strictly the largest, with
/// that value.
pub open spec fn first_max(s: Seq<Robot>, f: spec_fn(Robot) -> int) -> Option<(int, Pos)>
    decreases s.len(),
{
    if s.len() == 0 {
        None
    } else {
        let rest = first_max(s.drop_last(), f);
        let v = f(s.last());
        match rest {
            None => Some((v, s.last().pos)),
            Some(b) => if v > b.0 { Some((v, s.last().pos)) } else { rest },
        }
    }
}

pub open spec fn live_robot(r: Robot) -> bool {
    r.health > 0
}

pub open spec fn bomb_share(turn: &Turn, impact: Pos, v: Robot) -> int {
    if cheb(impact, v.pos) <= 1 { spec_hit_value(turn, v, v.health as int, 100) } else { 0 }
}

pub open spec fn bomb_sum(turn: &Turn, impact: Pos, s: Seq<Robot>) -> int
    decreases s.len(),
{
    if s.len() == 0 { 0 } else { bomb_sum(turn, impact, s.drop_last()) + bomb_share(turn, impact, s.last()) }
}

pub open spec fn bomb_pred() -> spec_fn(Robot) -> bool {
    |r: Robot| live_robot(r)
}

pub open spec fn dizzy_pred() -> spec_fn(Robot) -> bool {
    |r: Robot| live_robot(r) && !r.dizzy
}

pub open spec fn bomb_targets(turn: &Turn) -> Seq<Robot> {
    turn.robots@.filter(bomb_pred())
}

pub open spec fn spec_bomb_impact(turn: &Turn) -> Option<Pos> {
    let live = bomb_targets(turn);
    match first_max(live, |r: Robot| bomb_sum(turn, r.pos, live)) {
        Some(b) => Some(b.1),
        None => None,
    }
}

proof fn lemma_filter_len<A>(s: Seq<A>, pred: spec_fn(A) -> bool)
    ensures
        s.filter(pred).len() <= s.len(),
    decreases s.len(),
{
    reveal_with_fuel(Seq::filter, 1);
    if s.len() > 0 {
        lemma_filter_len(s.drop_last(), pred);
    }
}

/// Live robots, in robot order, as copies.
fn collect_robots(turn: &Turn, skip_dizzy: bool) -> (v: Vec<Robot>)
    requires
        turn.wf(),
    ensures
        v@ == turn.robots@.filter(if skip_dizzy { dizzy_pred() } else { bomb_pred() }),
        v@.len() <= 10_000,
        crate::model::robots_wf(v@),
{
    let ghost pred = if skip_dizzy { dizzy_pred() } else { bomb_pred() };
    let mut out: Vec<Robot> = Vec::new();
    let mut i: usize = 0;
    while i < turn.robots.len()
        invariant
            i <= turn.robots@.len(),
            turn.wf(),
            pred == (if skip_dizzy { dizzy_pred() } else { bomb_pred() }),
            out@ == turn.robots@.take(i as int).filter(pred),
            out@.len() <= i,
            crate::model::robots_wf(out@),
        decreases turn.robots@.len() - i,
    {
        proof {
            crate::model::lemma_filter_step(turn.robots@, i as int, pred);
        }
        let r = turn.robots[i];
        assert(r.wf());
        if r.health > 0 && (!skip_dizzy || !r.dizzy) {
            out.push(r);
        }
        i += 1;
    }
    assert(turn.robots@.take(turn.robots@.len() as int) =~= turn.robots@);
    out
}

/// Best 3×3 bomb impact: centred on a live robot, the most simulated value
/// of 100 damage on every live robot the blast covers; the first such robot
/// on ties.
pub fn bomb_impact(turn: &Turn) -> (r: Option<Pos>)
    requires
        turn.wf(),
    ensures
        r == spec_bomb_impact(turn),
{
    let live = collect_robots(turn, false);
    let ghost f = |r: Robot| bomb_sum(turn, r.pos, live@);
    let mut best: Option<(i64, Pos)> = None;
    let mut i: usize = 0;
    while i < live.len()
        invariant
            i <= live@.len(),
            turn.wf(),
            live@.len() <= 10_000,
            crate::model::robots_wf(live@),
            f == (|r: Robot| bomb_sum(turn, r.pos, live@)),
            match first_max(live@.take(i as int), f) {
                None => best is None,
                Some(b) => best matches Some(e) && e.0 == b.0 && e.1 == b.1,
            },
        decreases live@.len() - i,
    {
        assert(live@.take(i as int + 1).drop_last() =~= live@.take(i as int));
        assert(live@.take(i as int + 1).last() == live@[i as int]);
        let impact = live[i].pos;
        let mut value: i64 = 0;
        let mut j: usize = 0;
        while j < live.len()
            invariant
                j <= live@.len(),
                turn.wf(),
                live@.len() <= 10_000,
                crate::model::robots_wf(live@),
                pos_inner(impact),
                value == bomb_sum(turn, impact, live@.take(j as int)),
                0 <= value <= 2_400_000_000 * j,
            decreases live@.len() - j,
        {
            assert(live@.take(j as int + 1).drop_last() =~= live@.take(j as int));
            assert(live@.take(j as int + 1).last() == live@[j as int]);
            let v = &live[j];
            assert(v.wf());
            if chebyshev(impact, v.pos) <= 1 {
                value = value + hit_value(turn, v, v.health, 100);
            }
            j += 1;
        }
        assert(live@.take(live@.len() as int) =~= live@);
        let better = match best {
            None => true,
            Some(b) => value > b.0,
        };
        if better {
            best = Some((value, impact));
        }
        i += 1;
    }
    assert(live@.take(live@.len() as int) =~= live@);
    match best {
        Some(b) => Some(b.1),
        None => None,
    }
}

pub open spec fn dizzy_share(turn: &Turn, impact: Pos, v: Robot) -> int {
    if cheb(impact, v.pos) <= 1 { v.kind.spec_score() * 5 + spec_threat(turn, v) } else { 0 }
}

pub open spec fn dizzy_sum(turn: &Turn, impact: Pos, s: Seq<Robot>) -> int
    decreases s.len(),
{
    if s.len() == 0 { 0 } else { dizzy_sum(turn, impact, s.drop_last()) + dizzy_share(turn, impact, s.last()) }
}

pub open spec fn dizzy_targets(turn: &Turn) -> Seq<Robot> {
    turn.robots@.filter(dizzy_pred())
}

pub open spec fn spec_dizzy_impact(turn: &Turn) -> Option<Pos> {
    let live = dizzy_targets(turn);
    match first_max(live, |r: Robot| dizzy_sum(turn, r.pos, live)) {
        Some(b) => if b.0 >= 40 { Some(b.1) } else { None },
        None => None,
    }
}

/// Best dizzy impact among the live, not yet dizzy robots: score and threat
/// of the robots it covers, and only against a real cluster (40 or more).
pub fn dizzy_impact(turn: &Turn) -> (r: Option<Pos>)
    requires
        turn.wf(),
    ensures
        r == spec_dizzy_impact(turn),
{
    let live = collect_robots(turn, true);
    let ghost f = |r: Robot| dizzy_sum(turn, r.pos, live@);
    let mut best: Option<(i64, Pos)> = None;
    let mut i: usize = 0;
    while i < live.len()
        invariant
            i <= live@.len(),
            turn.wf(),
            live@.len() <= 10_000,
            crate::model::robots_wf(live@),
            f == (|r: Robot| dizzy_sum(turn, r.pos, live@)),
            match first_max(live@.take(i as int), f) {
                None => best is None,
                Some(b) => best matches Some(e) && e.0 == b.0 && e.1 == b.1,
            },
        decreases live@.len() - i,
    {
        assert(live@.take(i as int + 1).drop_last() =~= live@.take(i as int));
        assert(live@.take(i as int + 1).last() == live@[i as int]);
        let impact = live[i].pos;
        let mut value: i64 = 0;
        let mut j: usize = 0;
        while j < live.len()
            invariant
                j <= live@.len(),
                turn.wf(),
                live@.len() <= 10_000,
                crate::model::robots_wf(live@),
                pos_inner(impact),
                value == dizzy_sum(turn, impact, live@.take(j as int)),
                0 <= value <= 103 * j,
            decreases live@.len() - j,
        {
            assert(live@.take(j as int + 1).drop_last() =~= live@.take(j as int));
            assert(live@.take(j as int + 1).last() == live@[j as int]);
            let v = &live[j];
            assert(v.wf());
            if chebyshev(impact, v.pos) <= 1 {
                value = value + v.kind.score() * 5 + threat(turn, v);
            }
            j += 1;
        }
        assert(live@.take(live@.len() as int) =~= live@);
        let better = match best {
            None => true,
            Some(b) => value > b.0,
        };
        if better {
            best = Some((value, impact));
        }
        i += 1;
    }
    assert(live@.take(live@.len() as int) =~= live@);
    match best {
        Some(b) => if b.0 >= 40 { Some(b.1) } else { None },
        None => None,
    }
}

/// Health of the first live wall of `s` standing at `p`.
pub open spec fn wall_health_at(s: Seq<Unit>, p: Pos) -> int
    decreases s.len(),
{
    if s.len() == 0 {
        i64::MAX as int
    } else if is_live_wall(s[0]) && s[0].pos == p {
        s[0].health as int
    } else {
        wall_health_at(s.drop_first(), p)
    }
}

fn wall_health(turn: &Turn, p: Pos) -> (h: i64)
    ensures
        h == wall_health_at(turn.ours@, p),
{
    let mut i: usize = 0;
    assert(turn.ours@.skip(0) =~= turn.ours@);
    while i < turn.ours.len()
        invariant
            i <= turn.ours@.len(),
            wall_health_at(turn.ours@, p) == wall_health_at(turn.ours@.skip(i as int), p),
        decreases turn.ours@.len() - i,
    {
        assert(turn.ours@.skip(i as int).drop_first() =~= turn.ours@.skip(i as int + 1));
        assert(turn.ours@.skip(i as int)[0] == turn.ours@[i as int]);
        let u = &turn.ours[i];
        if u.kind == UnitKind::Wall && u.health > 0 && u.pos == p {
            return u.health;
        }
        i += 1;
    }
    i64::MAX
}

pub open spec fn robot_near(turn: &Turn, p: Pos, radius: int) -> bool {
    exists|i: int| 0 <= i < turn.robots@.len() && live_robot(#[trigger] turn.robots@[i])
        && cheb(turn.robots@[i].pos, p) < radius
}

pub fn any_robot_near(turn: &Turn, p: Pos, radius: i32) -> (r: bool)
    requires
        turn.wf(),
        pos_ok(p),
    ensures
        r == robot_near(turn, p, radius as int),
{
    let mut i: usize = 0;
    while i < turn.robots.len()
        invariant
            i <= turn.robots@.len(),
            turn.wf(),
            pos_ok(p),
            forall|k: int| 0 <= k < i ==> !(live_robot(#[trigger] turn.robots@[k]) && cheb(turn.robots@[k].pos, p) < radius),
        decreases turn.robots@.len() - i,
    {
        let r = &turn.robots[i];
        assert(r.wf());
        if r.health > 0 && chebyshev(r.pos, p) < radius {
            return true;
        }
        i += 1;
    }
    false
}

pub open spec fn repairable(turn: &Turn, role: Unit, safe_radius: int, w: Unit) -> bool {
    is_live_wall(w) && w.health < spec_wall_max_hp(w.level) && cheb(role.pos, w.pos) <= 1
        && !robot_near(turn, w.pos, safe_radius)
}

/// The first of `s` with the smallest key.
pub open spec fn first_min_pos(s: Seq<Pos>, key: spec_fn(Pos) -> int) -> Option<Pos>
    decreases s.len(),
{
    if s.len() == 0 {
        None
    } else {
        match first_min_pos(s.drop_last(), key) {
            None => Some(s.last()),
            Some(b) => if key(s.last()) < key(b) { Some(s.last()) } else { Some(b) },
        }
    }
}

pub open spec fn repair_candidates(turn: &Turn, role: Unit, safe_radius: int) -> Seq<Pos> {
    turn.ours@.filter(|w: Unit| repairable(turn, role, safe_radius, w)).map_values(|w: Unit| w.pos)
}

pub open spec fn spec_repair_target(turn: &Turn, role: Unit, safe_radius: int) -> Option<Pos> {
    if role.spec_count(crate::model::Item::WallFixer) == 0 {
        None
    } else {
        first_min_pos(repair_candidates(turn, role, safe_radius), |p: Pos| wall_health_at(turn.ours@, p))
    }
}

/// A damaged wall next to `role` worth repairing with a wall fixer and safe
/// to approach (no live robot within `safe_radius` of the wall): the weakest
/// one, the first of them on ties. Daytime rule.
pub fn repair_target(turn: &Turn, role: &Unit, safe_radius: i32) -> (r: Option<Pos>)
    requires
        turn.wf(),
        role.wf(),
    ensures
        r == spec_repair_target(turn, *role, safe_radius as int),
{
    if role.count_item(crate::model::Item::WallFixer) == 0 {
        return None;
    }
    let ghost pred = |w: Unit| repairable(turn, *role, safe_radius as int, w);
    let ghost key = |p: Pos| wall_health_at(turn.ours@, p);
    let mut best: Option<Pos> = None;
    let mut best_key: i64 = 0;
    let mut i: usize = 0;
    while i < turn.ours.len()
        invariant
            i <= turn.ours@.len(),
            turn.wf(),
            role.wf(),
            pred == (|w: Unit| repairable(turn, *role, safe_radius as int, w)),
            key == (|p: Pos| wall_health_at(turn.ours@, p)),
            best == first_min_pos(turn.ours@.take(i as int).filter(pred).map_values(|w: Unit| w.pos), key),
            best matches Some(b) ==> best_key == key(b),
        decreases turn.ours@.len() - i,
    {
        proof {
            crate::model::lemma_filter_step(turn.ours@, i as int, pred);
        }
        let ghost before = turn.ours@.take(i as int).filter(pred);
        let u = &turn.ours[i];
        assert(u.wf());
        if u.kind == UnitKind::Wall && u.health > 0 && u.health < wall_max_hp(u.level)
            && chebyshev(role.pos, u.pos) <= 1 && !any_robot_near(turn, u.pos, safe_radius) {
            assert(pred(turn.ours@[i as int]));
            let k = wall_health(turn, u.pos);
            assert(before.push(turn.ours@[i as int]).map_values(|w: Unit| w.pos)
                =~= before.map_values(|w: Unit| w.pos).push(u.pos));
            assert(before.map_values(|w: Unit| w.pos).push(u.pos).drop_last() =~= before.map_values(|w: Unit| w.pos));
            let replace = match best {
                None => true,
                Some(_) => k < best_key,
            };
            if replace {
                best = Some(u.pos);
                best_key = k;
            }
        } else {
            assert(!pred(turn.ours@[i as int]));
        }
        i += 1;
    }
    assert(turn.ours@.take(turn.ours@.len() as int) =~= turn.ours@);
    best
}

/// Lexicographic order on (health, x, y).
pub open spec fn mend_lt(a: Unit, b: Unit) -> bool {
    a.health < b.health || (a.health == b.health && (a.pos.x < b.pos.x || (a.pos.x == b.pos.x && a.pos.y < b.pos.y)))
}

pub open spec fn first_min_mend(s: Seq<Unit>) -> Option<Unit>
    decreases s.len(),
{
    if s.len() == 0 {
        None
    } else {
        match first_min_mend(s.drop_last()) {
            None => Some(s.last()),
            Some(b) => if mend_lt(s.last(), b) { Some(s.last()) } else { Some(b) },
        }
    }
}

pub open spec fn menddable(role: Unit, w: Unit) -> bool {
    is_live_wall(w) && cheb(role.pos, w.pos) == 1 && w.health < spec_wall_max_hp(w.level)
}

/// The night mend pick is a wall no other candidate beats: the least
/// health, then the lowest x, then the lowest y.
pub proof fn law_mend_pick_is_least(s: Seq<Unit>)
    ensures
        first_min_mend(s) matches Some(w) ==> s.contains(w)
            && forall|k: int| 0 <= k < s.len() ==> !mend_lt(#[trigger] s[k], w),
        s.len() > 0 ==> first_min_mend(s) is Some,
    decreases s.len(),
{
    if s.len() > 0 {
        let t = s.drop_last();
        law_mend_pick_is_least(t);
        let last = s.last();
        assert(s[s.len() - 1] == last);
        assert forall|k: int| 0 <= k < t.len() implies #[trigger] s[k] == t[k] by {}
        if let Some(b) = first_min_mend(t) {
            let j = choose|j: int| 0 <= j < t.len() && t[j] == b;
            assert(s[j] == b);
            if mend_lt(last, b) {
                assert forall|k: int| 0 <= k < s.len() implies !mend_lt(#[trigger] s[k], last) by {
                    if k < t.len() {
                        assert(!mend_lt(t[k], b));
                    }
                }
            } else {
                assert forall|k: int| 0 <= k < s.len() implies !mend_lt(#[trigger] s[k], b) by {
                    if k < t.len() {
                        assert(!mend_lt(t[k], b));
                    }
                }
            }
        }
    }
}

pub open spec fn spec_night_mend_target(turn: &Turn, role: Unit) -> Option<Pos> {
    if role.spec_count(crate::model::Item::WallFixer) == 0 || robot_near(turn, role.pos, 2) {
        None
    } else {
        match first_min_mend(turn.ours@.filter(|w: Unit| menddable(role, w))) {
            Some(w) => Some(w.pos),
            None => None,
        }
    }
}

/// The wall a night mender patches this round: with a wall fixer in hand and
/// no live robot adjacent to the mender, the weakest damaged wall next to it
/// (ties broken by x, then y).
pub fn night_mend_target(turn: &Turn, role: &Unit) -> (r: Option<Pos>)
    requires
        turn.wf(),
        role.wf(),
    ensures
        r == spec_night_mend_target(turn, *role),
{
    if role.count_item(crate::model::Item::WallFixer) == 0 {
        return None;
    }
    if any_robot_near(turn, role.pos, 2) {
        return None;
    }
    let ghost pred = |w: Unit| menddable(*role, w);
    let mut best: Option<usize> = None;
    let mut i: usize = 0;
    while i < turn.ours.len()
        invariant
            i <= turn.ours@.len(),
            turn.wf(),
            role.wf(),
            pred == (|w: Unit| menddable(*role, w)),
            match first_min_mend(turn.ours@.take(i as int).filter(pred)) {
                None => best is None,
                Some(w) => best matches Some(k) && k < turn.ours@.len() && turn.ours@[k as int] == w,
            },
        decreases turn.ours@.len() - i,
    {
        proof {
            crate::model::lemma_filter_step(turn.ours@, i as int, pred);
        }
        let ghost before = turn.ours@.take(i as int).filter(pred);
        let u = &turn.ours[i];
        assert(u.wf());
        if u.kind == UnitKind::Wall && u.health > 0 && chebyshev(role.pos, u.pos) == 1 && u.health < wall_max_hp(u.level) {
            assert(pred(turn.ours@[i as int]));
            assert(before.push(turn.ours@[i as int]).drop_last() =~= before);
            let replace = match best {
                None => true,
                Some(k) => {
                    let b = &turn.ours[k];
                    u.health < b.health || (u.health == b.health && (u.pos.x < b.pos.x || (u.pos.x == b.pos.x && u.pos.y < b.pos.y)))
                },
            };
            if replace {
                best = Some(i);
            }
        } else {
            assert(!pred(turn.ours@[i as int]));
        }
        i += 1;
    }
    assert(turn.ours@.take(turn.ours@.len() as int) =~= turn.ours@);
    match best {
        Some(k) => Some(turn.ours[k].pos),
        None => None,
    }
}

} // verus!
