//! The economy worker (B): the team's full-time money loop. One priority
//! chain, day and night alike: step away from robots after dark, heal, help
//! with the first tower on day one, carry stone to the ring while it is
//! short, sell when a trigger fires, and otherwise mine the vein with the
//! best return for the walk.

use vstd::prelude::*;
use crate::brain::distinct_ids;
use crate::model::{Pos, Turn, Unit, UnitKind, Item, ZoneKind, cheb, chebyshev, pos_ok, pos_inner, all_pos_ok, mine_list,
    spec_neighbours, neighbours, spec_blocked_for, contains_pos, spec_max_hp, is_controllable, zone_cells};
use crate::protocol::RoleCommand;
use crate::brain::night::{nearest_robot, nearest_robot_of};
use crate::brain::economy::{spec_travel, vendor_travel, spec_sellable_ores, sellable_ores};
use crate::brain::action::shop::{max_hp, medicine_price};
use crate::brain::action::mine::{spec_stone_covered, stone_covered};
use crate::state::bump;
use crate::brain::{Plan, plan_pushed};
use crate::brain::action::geometry::{spec_stone_demand, stone_demand_of};
use crate::brain::action::sell::{sell_flow_result, sell_flow};
use crate::brain::action::shop::{spec_use_medicine, use_medicine, provision_result, self_provision};
use crate::brain::economy::{spec_discard_command, discard_command};
use crate::brain::role::wall_worker::{mine_at, ore_at, lemma_mine_at_inner, run_vein, run_vein_result};
use crate::brain::{walk_toward, walk_result, stand_cells, land_pred};
use crate::brain::economy::{spec_may_build_weapon, may_build_weapon};
use crate::brain::action::tower_site::{spec_tower_gaps, tower_gaps};
use crate::brain::action::building::{build_or_walk, build_or_walk_result};
use crate::brain::action::geometry::{HARD_SEAL_ROUND, spec_would_trap, spec_homes_by_role, wall_would_trap};
use crate::state::{BotState, on_outage, hits_in};
use crate::brain::economy::{DUSK_ROUND, nearest, spec_priced, priced, free_slots, lemma_mine_list_inner};
use crate::brain::combat::{robot_near, any_robot_near};
use crate::brain::route::{spec_trip_rounds, trip_rounds};
use crate::brain::action::geometry::{SEAL_GRACE, spec_wall_gaps, wall_gaps, lemma_wall_gaps_inner};

verus! {

/// After dark B keeps at least this many cells between itself (and the vein
/// it walks to) and every living robot.
pub const NIGHT_ROBOT_CLEARANCE: i32 = 4;

/// A vein yields ten collects.
pub const VEIN_COLLECT_LIMIT: i64 = 10;

/// The vendor counts as on the way within this many rounds of travel.
pub const NEAR_VENDOR_ROUNDS: i64 = 3;

/// A live treasure plan wants at least this much gold in the purse.
pub const TREASURE_GOLD_FLOOR: i64 = 45;

/// Rounds one carrier alone needs per ring wall (fetch, walk, lay).
pub const SOLO_RING_CELL_ROUNDS: i64 = 4;

/// What one stone is worth to the vein pick while the ring is short: a wall.
pub const STONE_WALL_VALUE: i64 = 10;

/// Why a worker turns its ore into gold this round.
#[derive(Clone, Copy, Debug, PartialEq, Eq, Structural)]
pub enum SellTrigger {
    /// No free slot left: must sell (or dump what cannot be sold).
    BackpackFull,
    /// The buyer's synced deadline is due.
    BuyDeadline,
    /// A teammate is badly hurt and the purse cannot buy the Medicine.
    MedicineGold,
    /// The vendor is a few rounds away: sell on the way past.
    NearVendor,
    /// A live treasure plan and a purse under its floor.
    TreasureFloor,
    /// The last rounds in which a sell trip still gets the wall worker back
    /// to its post before dark.
    DuskCashout,
}

// ---------------------------------------------------------------------------
// Robot clearance
// ---------------------------------------------------------------------------

pub open spec fn spec_night_safe(turn: &Turn, p: Pos, clearance: int) -> bool {
    clearance <= 0 || !robot_near(turn, p, clearance)
}

/// No living robot within `clearance` cells of `p` (always true by day, when
/// the clearance is zero).
pub fn night_safe(turn: &Turn, p: Pos, clearance: i32) -> (r: bool)
    requires
        turn.wf(),
        pos_ok(p),
    ensures
        r == spec_night_safe(turn, p, clearance as int),
{
    clearance <= 0 || !any_robot_near(turn, p, clearance)
}

// ---------------------------------------------------------------------------
// Stone trips
// ---------------------------------------------------------------------------

/// Distance from `from` to the nearest of `cells` (zero when there is none).
pub fn nearest_cell(from: Pos, cells: &Vec<Pos>) -> (n: i64)
    requires
        pos_ok(from),
        all_pos_ok(cells@),
    ensures
        n == nearest(from, cells@),
        0 <= n <= 2_000_000,
{
    let mut best: i64 = 0;
    let mut i: usize = 0;
    while i < cells.len()
        invariant
            i <= cells@.len(),
            pos_ok(from),
            all_pos_ok(cells@),
            best == nearest(from, cells@.take(i as int)),
            0 <= best <= 2_000_000,
        decreases cells@.len() - i,
    {
        assert(cells@.take(i as int + 1).drop_last() =~= cells@.take(i as int));
        assert(cells@.take(i as int + 1).last() == cells@[i as int]);
        let d = chebyshev(from, cells[i]) as i64;
        if i == 0 || d < best {
            best = d;
        }
        proof {
            if i == 0 {
                assert(cells@.take(1)[0] == cells@[0]);
            }
        }
        i += 1;
    }
    assert(cells@.take(cells@.len() as int) =~= cells@);
    best
}

pub open spec fn max0(v: int) -> int {
    if v > 0 { v } else { 0 }
}

/// Can a stone trip to `vein` still land as a wall before dusk? Walk out,
/// dig a load (the pack or the debt, whichever is smaller), carry it to the
/// nearest gap and lay it, with the walk out again as slack; in the seal
/// grace a single last stone only has to land before the grace ends.
pub open spec fn spec_deliverable(turn: &Turn, state: &BotState, role: Unit, vein: Pos, trip: int) -> bool {
    let out = trip / 2;
    let gaps = spec_wall_gaps(turn, state);
    let back = nearest(vein, gaps);
    let free = if role.capacity - role.backpack@.len() > 0 { role.capacity - role.backpack@.len() } else { 0 };
    let pack = if free > 1 { free } else { 1 };
    let debt = if gaps.len() > 1 { gaps.len() as int } else { 1 };
    let load = if pack < debt { pack } else { debt };
    out + 2 * load + back + out <= max0(DUSK_ROUND - turn.in_day_round)
        || (turn.in_day_round >= DUSK_ROUND - SEAL_GRACE
            && out + 2 + back <= max0(DUSK_ROUND + SEAL_GRACE - turn.in_day_round))
}

pub fn stone_trip_deliverable(turn: &Turn, state: &BotState, role: &Unit, vein: Pos, trip: i64) -> (r: bool)
    requires
        turn.wf(),
        state.wf(),
        role.wf(),
        pos_ok(vein),
        0 <= trip <= 4_000_001,
    ensures
        r == spec_deliverable(turn, state, *role, vein, trip as int),
{
    proof {
        lemma_wall_gaps_inner(turn, state);
    }
    let out = trip / 2;
    let gaps = wall_gaps(turn, state);
    assert(all_pos_ok(gaps@));
    let back = nearest_cell(vein, &gaps);
    let free = free_slots(role);
    let pack: i64 = if free > 1 { free } else { 1 };
    let debt: i64 = if gaps.len() > 1 { gaps.len() as i64 } else { 1 };
    let load = if pack < debt { pack } else { debt };
    let left: i64 = if DUSK_ROUND - turn.in_day_round > 0 { DUSK_ROUND - turn.in_day_round } else { 0 };
    if out + 2 * load + back + out <= left {
        return true;
    }
    let grace_left: i64 = if DUSK_ROUND + SEAL_GRACE - turn.in_day_round > 0 {
        DUSK_ROUND + SEAL_GRACE - turn.in_day_round
    } else {
        0
    };
    turn.in_day_round >= DUSK_ROUND - SEAL_GRACE && out + 2 + back <= grace_left
}

// ---------------------------------------------------------------------------
// The vein pick
// ---------------------------------------------------------------------------

/// A vein the pick may consider at all.
pub open spec fn vein_open(turn: &Turn, state: &BotState, claimed: Seq<Pos>, clearance: int, stone_only: bool,
    p: Pos, ore: Item) -> bool {
    &&& !(stone_only && ore != Item::Stone)
    &&& !on_outage(state.outages@, ore, turn.day)
    &&& !claimed.contains(p)
    &&& hits_in(state.vein_hits@, p) < VEIN_COLLECT_LIMIT
    &&& spec_night_safe(turn, p, clearance)
}

pub open spec fn vein_trip(turn: &Turn, role: Unit, p: Pos) -> int {
    let t = spec_trip_rounds(turn, role.pos, p);
    if t > 1 { t } else { 1 }
}

/// What a load from this vein is worth: stone only while the ring wants it
/// and the trip can still land it; ore at its expected price.
pub open spec fn vein_value(turn: &Turn, state: &BotState, role: Unit, stone_short: bool, p: Pos, ore: Item,
    trip: int) -> Option<int> {
    if ore == Item::Stone {
        if stone_short && spec_deliverable(turn, state, role, p, trip) { Some(STONE_WALL_VALUE as int) } else { None }
    } else {
        Some(spec_priced(turn, state, ore))
    }
}

/// `(v, t, p)` beats `b` in the pick: a better return for the walk (value
/// over trip; the pack's free slots scale both alike), then the shorter
/// trip, then the lower coordinates.
pub open spec fn vein_better(v: int, t: int, p: Pos, b: (int, int, Pos, Item)) -> bool {
    v * b.1 > b.0 * t || (v * b.1 == b.0 * t && (t < b.1 || (t == b.1 && (p.x < b.2.x
        || (p.x == b.2.x && p.y < b.2.y)))))
}

pub open spec fn pick_fold(turn: &Turn, state: &BotState, role: Unit, stone_short: bool, clearance: int,
    claimed: Seq<Pos>, stone_only: bool, s: Seq<(Pos, Item)>) -> Option<(int, int, Pos, Item)>
    decreases s.len(),
{
    if s.len() == 0 {
        None
    } else {
        let rest = pick_fold(turn, state, role, stone_short, clearance, claimed, stone_only, s.drop_last());
        let (p, ore) = s.last();
        if !vein_open(turn, state, claimed, clearance, stone_only, p, ore) {
            rest
        } else {
            let t = vein_trip(turn, role, p);
            match vein_value(turn, state, role, stone_short, p, ore, t) {
                None => rest,
                Some(v) => match rest {
                    None => Some((v, t, p, ore)),
                    Some(b) => if vein_better(v, t, p, b) { Some((v, t, p, ore)) } else { rest },
                },
            }
        }
    }
}

pub open spec fn spec_pick_vein(turn: &Turn, state: &BotState, role: Unit, stone_short: bool, clearance: int,
    claimed: Seq<Pos>, stone_only: bool) -> Option<(Pos, Item)> {
    match pick_fold(turn, state, role, stone_short, clearance, claimed, stone_only, mine_list(turn.zones@)) {
        Some(b) => Some((b.2, b.3)),
        None => None,
    }
}

/// The vein with the best return for the walk: its value (a wall for stone
/// the ring still wants and can get in time, the expected price for ore)
/// times the pack's free slots over the trip, nearer and then lower
/// coordinates on ties. Veins blacked out by an outage, claimed this round,
/// mined out, or (after dark) inside a robot's clearance are passed over;
/// `stone_only` hides every ore.
pub fn pick_vein(turn: &Turn, state: &BotState, role: &Unit, stone_short: bool, clearance: i32,
    claimed: &Vec<Pos>, stone_only: bool) -> (r: Option<(Pos, Item)>)
    requires
        turn.wf(),
        state.wf(),
        role.wf(),
    ensures
        r == spec_pick_vein(turn, state, *role, stone_short, clearance as int, claimed@, stone_only),
        r matches Some(v) ==> pos_inner(v.0) && hits_in(state.vein_hits@, v.0) < VEIN_COLLECT_LIMIT,
{
    proof {
        lemma_mine_list_inner(turn.zones@);
    }
    let mines = turn.all_mines();
    let mut best: Option<(i64, i64, Pos, Item)> = None;
    let mut i: usize = 0;
    while i < mines.len()
        invariant
            i <= mines@.len(),
            turn.wf(),
            state.wf(),
            role.wf(),
            mines@ == mine_list(turn.zones@),
            forall|k: int| 0 <= k < mines@.len() ==> pos_inner(#[trigger] mines@[k].0),
            match best {
                Some(b) => pick_fold(turn, state, *role, stone_short, clearance as int, claimed@, stone_only,
                    mines@.take(i as int)) == Some((b.0 as int, b.1 as int, b.2, b.3))
                    && -2_000_000 <= b.0 <= 2_000_000 && 1 <= b.1 <= 4_000_001 && pos_inner(b.2)
                    && hits_in(state.vein_hits@, b.2) < VEIN_COLLECT_LIMIT,
                None => pick_fold(turn, state, *role, stone_short, clearance as int, claimed@, stone_only,
                    mines@.take(i as int)) is None,
            },
        decreases mines@.len() - i,
    {
        assert(mines@.take(i as int + 1).drop_last() =~= mines@.take(i as int));
        assert(mines@.take(i as int + 1).last() == mines@[i as int]);
        let (p, ore) = mines[i];
        let open = !(stone_only && ore != Item::Stone) && !state.ore_on_outage(ore, turn.day)
            && !crate::model::contains_pos(claimed, p) && state.hits_of(p) < VEIN_COLLECT_LIMIT
            && night_safe(turn, p, clearance);
        if open {
            let t0 = trip_rounds(turn, role.pos, p);
            let t: i64 = if t0 > 1 { t0 } else { 1 };
            let value: Option<i64> = if ore == Item::Stone {
                if stone_short && stone_trip_deliverable(turn, state, role, p, t) {
                    Some(STONE_WALL_VALUE)
                } else {
                    None
                }
            } else {
                Some(priced(turn, state, ore))
            };
            if let Some(v) = value {
                let replace = match best {
                    None => true,
                    Some(b) => {
                        assert(-8_000_002_000_000 <= v * b.1 <= 8_000_002_000_000) by (nonlinear_arith)
                            requires -2_000_000 <= v <= 2_000_000, 1 <= b.1 <= 4_000_001;
                        assert(-8_000_002_000_000 <= b.0 * t <= 8_000_002_000_000) by (nonlinear_arith)
                            requires -2_000_000 <= b.0 <= 2_000_000, 1 <= t <= 4_000_001;
                        let lhs = v * b.1;
                        let rhs = b.0 * t;
                        lhs > rhs || (lhs == rhs && (t < b.1 || (t == b.1 && (p.x < b.2.x
                            || (p.x == b.2.x && p.y < b.2.y)))))
                    },
                };
                if replace {
                    best = Some((v, t, p, ore));
                }
            }
        }
        i += 1;
    }
    assert(mines@.take(mines@.len() as int) =~= mines@);
    match best {
        Some(b) => Some((b.2, b.3)),
        None => None,
    }
}

// ---------------------------------------------------------------------------
// Robot evasion
// ---------------------------------------------------------------------------

/// The best step away from the robots among `s`: a free land cell that
/// strictly widens the nearest-robot distance, the widest first, then the
/// lowest coordinates.
pub open spec fn evade_fold(turn: &Turn, role: Unit, near: int, s: Seq<Pos>) -> Option<(int, Pos)>
    decreases s.len(),
{
    if s.len() == 0 {
        None
    } else {
        let rest = evade_fold(turn, role, near, s.drop_last());
        let p = s.last();
        if !turn.spec_is_land(p) || spec_blocked_for(turn, role.id).contains(p) {
            rest
        } else {
            let g = nearest_robot(turn.robots@, p);
            if g <= near {
                rest
            } else {
                match rest {
                    None => Some((g, p)),
                    Some(b) => if g > b.0 || (g == b.0 && (p.x < b.1.x || (p.x == b.1.x && p.y < b.1.y))) {
                        Some((g, p))
                    } else {
                        rest
                    },
                }
            }
        }
    }
}

pub open spec fn spec_evasion(turn: &Turn, role: Unit, clearance: int) -> Option<RoleCommand> {
    if clearance <= 0 {
        None
    } else {
        let near = nearest_robot(turn.robots@, role.pos);
        if near >= clearance {
            None
        } else {
            match evade_fold(turn, role, near, spec_neighbours(role.pos)) {
                Some(b) => Some(RoleCommand::Move(b.1)),
                None => None,
            }
        }
    }
}

/// Step away from the robots after dark: one adjacent free cell that
/// strictly widens the distance to the nearest one. Nothing by day, with no
/// robot inside the clearance, or when cornered.
pub fn robot_evasion(turn: &Turn, role: &Unit, clearance: i32) -> (r: Option<RoleCommand>)
    requires
        turn.wf(),
        role.wf(),
    ensures
        r == spec_evasion(turn, *role, clearance as int),
{
    if clearance <= 0 {
        return None;
    }
    let near = nearest_robot_of(turn, role.pos);
    if near >= clearance {
        return None;
    }
    let blocked = turn.blocked_for(role.id);
    let nbs = neighbours(role.pos);
    let mut best: Option<(i32, Pos)> = None;
    let mut i: usize = 0;
    while i < nbs.len()
        invariant
            i <= nbs@.len(),
            turn.wf(),
            role.wf(),
            nbs@ == spec_neighbours(role.pos),
            all_pos_ok(nbs@),
            blocked@ == spec_blocked_for(turn, role.id),
            near == nearest_robot(turn.robots@, role.pos),
            match best {
                Some(b) => evade_fold(turn, *role, near as int, nbs@.take(i as int)) == Some((b.0 as int, b.1)),
                None => evade_fold(turn, *role, near as int, nbs@.take(i as int)) is None,
            },
        decreases nbs@.len() - i,
    {
        assert(nbs@.take(i as int + 1).drop_last() =~= nbs@.take(i as int));
        assert(nbs@.take(i as int + 1).last() == nbs@[i as int]);
        let p = nbs[i];
        if turn.is_land(p) && !contains_pos(&blocked, p) {
            let g = nearest_robot_of(turn, p);
            if g > near {
                let better = match best {
                    None => true,
                    Some(b) => g > b.0 || (g == b.0 && (p.x < b.1.x || (p.x == b.1.x && p.y < b.1.y))),
                };
                if better {
                    best = Some((g, p));
                }
            }
        }
        i += 1;
    }
    assert(nbs@.take(nbs@.len() as int) =~= nbs@);
    match best {
        Some(b) => Some(RoleCommand::Move(b.1)),
        None => None,
    }
}

// ---------------------------------------------------------------------------
// B's sell triggers
// ---------------------------------------------------------------------------

/// Below 80% of the maximum counts as hurt.
pub open spec fn spec_hurt(role: Unit) -> bool {
    spec_max_hp(role.kind) matches Some(m) && role.health * 10 < m * 8
}

fn hurt(role: &Unit) -> (r: bool)
    requires
        role.wf(),
    ensures
        r == spec_hurt(*role),
{
    match max_hp(role) {
        Some(m) => role.health * 10 < m * 8,
        None => false,
    }
}

/// A controllable role below 30% of its maximum.
pub open spec fn in_danger(u: Unit) -> bool {
    is_controllable(u) && (spec_max_hp(u.kind) matches Some(m) && u.health * 10 < m * 3)
}

/// A controllable teammate below 30% of its maximum.
pub open spec fn mate_in_danger(turn: &Turn) -> bool {
    exists|i: int| 0 <= i < turn.ours@.len() && in_danger(#[trigger] turn.ours@[i])
}

fn any_mate_in_danger(turn: &Turn) -> (r: bool)
    requires
        turn.wf(),
    ensures
        r == mate_in_danger(turn),
{
    let mut i: usize = 0;
    while i < turn.ours.len()
        invariant
            i <= turn.ours@.len(),
            turn.wf(),
            forall|k: int| 0 <= k < i ==> !in_danger(#[trigger] turn.ours@[k]),
        decreases turn.ours@.len() - i,
    {
        let u = &turn.ours[i];
        assert(u.wf());
        if (u.kind == UnitKind::Worker || u.kind == UnitKind::Pioneer) && u.health > 0 {
            if let Some(m) = max_hp(u) {
                if u.health * 10 < m * 3 {
                    assert(in_danger(turn.ours@[i as int]));
                    return true;
                }
            }
        }
        i += 1;
    }
    false
}

/// B's sell triggers, most urgent first: the full pack, the buyer's
/// deadline, a teammate's Medicine money, the vendor near, a live treasure
/// plan under its gold floor.
pub open spec fn spec_sell_trigger_b(turn: &Turn, state: &BotState, role: Unit, stone_demand: int, treasure_live: bool)
    -> Option<SellTrigger> {
    let travel = spec_travel(turn, role.pos, zone_cells(turn.zones@, ZoneKind::Vendor));
    let free = if role.capacity - role.backpack@.len() > 0 { role.capacity - role.backpack@.len() } else { 0 };
    if free <= 0 {
        Some(SellTrigger::BackpackFull)
    } else if spec_sellable_ores(turn, role, stone_demand) <= 0 {
        None
    } else if state.buy_deadline matches Some(d) && turn.round_no + travel >= d {
        Some(SellTrigger::BuyDeadline)
    } else if mate_in_danger(turn) && turn.gold < medicine_price(turn) {
        Some(SellTrigger::MedicineGold)
    } else if travel <= NEAR_VENDOR_ROUNDS {
        Some(SellTrigger::NearVendor)
    } else if treasure_live && turn.gold < TREASURE_GOLD_FLOOR {
        Some(SellTrigger::TreasureFloor)
    } else {
        None
    }
}

pub fn sell_trigger_b(turn: &Turn, state: &BotState, role: &Unit, stone_demand: i64, treasure_live: bool)
    -> (r: Option<SellTrigger>)
    requires
        turn.wf(),
        role.wf(),
        0 <= stone_demand <= 1_000_000,
    ensures
        r == spec_sell_trigger_b(turn, state, *role, stone_demand as int, treasure_live),
{
    if free_slots(role) <= 0 {
        return Some(SellTrigger::BackpackFull);
    }
    if sellable_ores(turn, role, stone_demand) <= 0 {
        return None;
    }
    let travel = vendor_travel(turn, role.pos);
    if let Some(deadline) = state.buy_deadline {
        if turn.round_no + travel >= deadline {
            return Some(SellTrigger::BuyDeadline);
        }
    }
    let price: i64 = match turn.price(Item::Medicine) {
        Some(p) => p,
        None => i64::MAX,
    };
    if any_mate_in_danger(turn) && turn.gold < price {
        return Some(SellTrigger::MedicineGold);
    }
    if travel <= NEAR_VENDOR_ROUNDS {
        return Some(SellTrigger::NearVendor);
    }
    if treasure_live && turn.gold < TREASURE_GOLD_FLOOR {
        return Some(SellTrigger::TreasureFloor);
    }
    None
}

// ---------------------------------------------------------------------------
// The day-one ring
// ---------------------------------------------------------------------------

/// Is stone worth B's rounds: the day-one ring is hungry, or the team is
/// short of the day's demand.
pub open spec fn spec_stone_wanted(turn: &Turn, stone_demand: int, hunger: bool) -> bool {
    hunger || !spec_stone_covered(turn, stone_demand)
}

/// The first live worker of `s` other than `id`.
pub open spec fn first_mate(s: Seq<Unit>, id: i64) -> Option<Unit>
    decreases s.len(),
{
    if s.len() == 0 {
        None
    } else if s[0].kind == UnitKind::Worker && s[0].id != id && s[0].health > 0 {
        Some(s[0])
    } else {
        first_mate(s.drop_first(), id)
    }
}

/// While the day-one ring has gaps, B stays on it unless the team's stone
/// covers the demand and the wall worker alone can still close it by dusk
/// (its walk to the nearest gap plus four rounds a cell).
pub open spec fn spec_wall_hunger(turn: &Turn, state: &BotState, stone_demand: int, role: Unit) -> bool {
    let gaps = spec_wall_gaps(turn, state);
    if turn.day != 1 || !turn.is_day || gaps.len() == 0 {
        false
    } else {
        let remaining = max0(DUSK_ROUND - turn.in_day_round);
        let a_walk = match first_mate(turn.ours@, role.id) {
            Some(mate) => nearest(mate.pos, gaps),
            None => (i64::MAX / 4) as int,
        };
        let total = a_walk + gaps.len() * SOLO_RING_CELL_ROUNDS;
        let capped = if total > i64::MAX { i64::MAX as int } else { total };
        !spec_stone_covered(turn, stone_demand) || !(capped <= remaining)
    }
}

fn mate_of(turn: &Turn, id: i64) -> (r: Option<Pos>)
    requires
        turn.wf(),
    ensures
        match first_mate(turn.ours@, id) {
            Some(m) => r == Some(m.pos) && pos_ok(m.pos),
            None => r is None,
        },
{
    let ghost s = turn.ours@;
    assert(s.subrange(0, s.len() as int) =~= s);
    let mut i: usize = 0;
    while i < turn.ours.len()
        invariant
            i <= s.len(),
            s == turn.ours@,
            turn.wf(),
            first_mate(s, id) == first_mate(s.subrange(i as int, s.len() as int), id),
        decreases s.len() - i,
    {
        let ghost rest = s.subrange(i as int, s.len() as int);
        assert(rest[0] == s[i as int]);
        assert(rest.drop_first() =~= s.subrange(i as int + 1, s.len() as int));
        let u = &turn.ours[i];
        assert(u.wf());
        if u.kind == UnitKind::Worker && u.id != id && u.health > 0 {
            return Some(u.pos);
        }
        i += 1;
    }
    None
}

pub fn day1_wall_hunger(turn: &Turn, state: &BotState, stone_demand: i64, role: &Unit) -> (r: bool)
    requires
        turn.wf(),
        state.wf(),
        role.wf(),
        0 <= stone_demand <= 1_000_000,
    ensures
        r == spec_wall_hunger(turn, state, stone_demand as int, *role),
{
    if turn.day != 1 || !turn.is_day {
        return false;
    }
    proof {
        lemma_wall_gaps_inner(turn, state);
    }
    let gaps = wall_gaps(turn, state);
    if gaps.len() == 0 {
        return false;
    }
    assert(all_pos_ok(gaps@));
    let remaining: i64 = if DUSK_ROUND - turn.in_day_round > 0 { DUSK_ROUND - turn.in_day_round } else { 0 };
    let a_walk: i64 = match mate_of(turn, role.id) {
        Some(p) => nearest_cell(p, &gaps),
        None => i64::MAX / 4,
    };
    let n: i64 = if gaps.len() < 1_000_000 { gaps.len() as i64 } else { 1_000_000 };
    let fits = if gaps.len() >= 1_000_000 {
        false
    } else {
        let total: i128 = a_walk as i128 + (n * SOLO_RING_CELL_ROUNDS) as i128;
        let capped: i64 = if total > i64::MAX as i128 { i64::MAX } else { total as i64 };
        capped <= remaining
    };
    proof {
        if gaps.len() >= 1_000_000 {
            assert(gaps@.len() * SOLO_RING_CELL_ROUNDS >= 4_000_000);
        }
    }
    !stone_covered(turn, stone_demand) || !fits
}

/// Some stone vein, not blacked out, from which a stone still lands as a
/// wall in time.
pub open spec fn spec_stone_reachable(turn: &Turn, state: &BotState, role: Unit) -> bool {
    exists|k: int| 0 <= k < mine_list(turn.zones@).len() && (#[trigger] mine_list(turn.zones@)[k]).1 == Item::Stone
        && !on_outage(state.outages@, Item::Stone, turn.day)
        && spec_deliverable(turn, state, role, mine_list(turn.zones@)[k].0, vein_trip(turn, role, mine_list(turn.zones@)[k].0))
}

pub fn stone_reachable(turn: &Turn, state: &BotState, role: &Unit) -> (r: bool)
    requires
        turn.wf(),
        state.wf(),
        role.wf(),
    ensures
        r == spec_stone_reachable(turn, state, *role),
{
    proof {
        lemma_mine_list_inner(turn.zones@);
    }
    let mines = turn.all_mines();
    let mut i: usize = 0;
    while i < mines.len()
        invariant
            i <= mines@.len(),
            turn.wf(),
            state.wf(),
            role.wf(),
            mines@ == mine_list(turn.zones@),
            forall|k: int| 0 <= k < mines@.len() ==> pos_inner(#[trigger] mines@[k].0),
            forall|k: int| 0 <= k < i ==> !((#[trigger] mines@[k]).1 == Item::Stone
                && !on_outage(state.outages@, Item::Stone, turn.day)
                && spec_deliverable(turn, state, *role, mines@[k].0, vein_trip(turn, *role, mines@[k].0))),
        decreases mines@.len() - i,
    {
        let (p, ore) = mines[i];
        if ore == Item::Stone && !state.ore_on_outage(ore, turn.day) {
            let t0 = trip_rounds(turn, role.pos, p);
            let t: i64 = if t0 > 1 { t0 } else { 1 };
            if stone_trip_deliverable(turn, state, role, p, t) {
                return true;
            }
        }
        i += 1;
    }
    false
}

// ---------------------------------------------------------------------------
// Day one: the first tower
// ---------------------------------------------------------------------------

/// The unclaimed tower slot with the lowest coordinates.
pub open spec fn min_site(s: Seq<(Pos, UnitKind)>, claimed: Seq<Pos>) -> Option<(Pos, UnitKind)>
    decreases s.len(),
{
    if s.len() == 0 {
        None
    } else {
        let rest = min_site(s.drop_last(), claimed);
        let x = s.last();
        if claimed.contains(x.0) {
            rest
        } else {
            match rest {
                None => Some(x),
                Some(b) => if x.0.x < b.0.x || (x.0.x == b.0.x && x.0.y < b.0.y) { Some(x) } else { rest },
            }
        }
    }
}

/// Day one's help: B builds (or walks to) the first free weapon slot until
/// one build command has gone out. The slot is claimed before the walk.
pub open spec fn help_result(turn: &Turn, s0: &BotState, s1: &BotState, role: Unit, c0: Seq<Pos>, c1: Seq<Pos>,
    r: Option<RoleCommand>) -> bool {
    if turn.day != 1 || !turn.is_day || s0.d1_weapon_helped || !spec_may_build_weapon(turn) {
        r is None && c1 == c0 && *s1 == *s0
    } else {
        match min_site(spec_tower_gaps(turn, s0), c0) {
            None => r is None && c1 == c0 && *s1 == *s0,
            Some((site, kind)) => {
                &&& *s1 == (BotState {
                        d1_weapon_helped: s0.d1_weapon_helped || (cheb(role.pos, site) == 1 && turn.spec_is_land(site)),
                        ..*s0
                    })
                &&& build_or_walk_result(turn, role, site, kind, c0.push(site), c1, r)
            },
        }
    }
}

pub fn d1_weapon_help(turn: &Turn, state: &mut BotState, role: &Unit, claimed: &mut Vec<Pos>) -> (r: Option<RoleCommand>)
    requires
        turn.wf(),
        role.wf(),
        old(state).wf(),
    ensures
        help_result(turn, old(state), final(state), *role, old(claimed)@, final(claimed)@, r),
        final(state).wf(),
{
    if turn.day != 1 || !turn.is_day || state.d1_weapon_helped {
        return None;
    }
    if !may_build_weapon(turn, state) {
        return None;
    }
    let gaps = tower_gaps(turn, state);
    let mut best: Option<(Pos, UnitKind)> = None;
    let mut i: usize = 0;
    while i < gaps.len()
        invariant
            i <= gaps@.len(),
            forall|k: int| 0 <= k < gaps@.len() ==> pos_inner(#[trigger] gaps@[k].0),
            best == min_site(gaps@.take(i as int), claimed@),
            best matches Some(b) ==> pos_inner(b.0),
        decreases gaps@.len() - i,
    {
        assert(gaps@.take(i as int + 1).drop_last() =~= gaps@.take(i as int));
        assert(gaps@.take(i as int + 1).last() == gaps@[i as int]);
        let x = gaps[i];
        if !contains_pos(claimed, x.0) {
            let better = match best {
                None => true,
                Some(b) => x.0.x < b.0.x || (x.0.x == b.0.x && x.0.y < b.0.y),
            };
            if better {
                best = Some(x);
            }
        }
        i += 1;
    }
    assert(gaps@.take(gaps@.len() as int) =~= gaps@);
    let (site, kind) = match best {
        None => return None,
        Some(b) => b,
    };
    if chebyshev(role.pos, site) == 1 && turn.is_land(site) {
        state.d1_weapon_helped = true;
    }
    claimed.push(site);
    build_or_walk(turn, role, site, kind, claimed)
}

// ---------------------------------------------------------------------------
// Stone delivery
// ---------------------------------------------------------------------------

/// `a` comes before `b` walking from `here`: nearer, then lower coordinates.
pub open spec fn gap_before(here: Pos, a: Pos, b: Pos) -> bool {
    let (da, db) = (cheb(here, a), cheb(here, b));
    da < db || (da == db && (a.x < b.x || (a.x == b.x && a.y < b.y)))
}

pub open spec fn insert_gap(here: Pos, s: Seq<Pos>, x: Pos) -> Seq<Pos>
    decreases s.len(),
{
    if s.len() == 0 {
        seq![x]
    } else if gap_before(here, x, s[0]) {
        seq![x] + s
    } else {
        seq![s[0]] + insert_gap(here, s.subrange(1, s.len() as int), x)
    }
}

/// The gaps nearest first, then by coordinates (stable).
pub open spec fn sort_gaps(here: Pos, s: Seq<Pos>) -> Seq<Pos>
    decreases s.len(),
{
    if s.len() == 0 { Seq::empty() } else { insert_gap(here, sort_gaps(here, s.drop_last()), s.last()) }
}

pub open spec fn unclaimed(claimed: Seq<Pos>) -> spec_fn(Pos) -> bool {
    |p: Pos| !claimed.contains(p)
}

/// The wall gaps B may walk to this round, nearest first.
pub open spec fn b_gaps(turn: &Turn, state: &BotState, role: Unit, claimed: Seq<Pos>) -> Seq<Pos> {
    sort_gaps(role.pos, spec_wall_gaps(turn, state).filter(unclaimed(claimed)))
}

proof fn lemma_insert_gap_at(here: Pos, s: Seq<Pos>, x: Pos, j: int)
    requires
        0 <= j <= s.len(),
        forall|k: int| 0 <= k < j ==> !gap_before(here, x, #[trigger] s[k]),
        j < s.len() ==> gap_before(here, x, s[j]),
    ensures
        insert_gap(here, s, x) == s.take(j) + seq![x] + s.skip(j),
    decreases s.len(),
{
    if s.len() == 0 {
        assert(s.take(j) + seq![x] + s.skip(j) =~= seq![x]);
    } else if j == 0 {
        assert(s.take(0) + seq![x] + s.skip(0) =~= seq![x] + s);
    } else {
        let t = s.subrange(1, s.len() as int);
        assert forall|k: int| 0 <= k < j - 1 implies !gap_before(here, x, #[trigger] t[k]) by {
            assert(t[k] == s[k + 1]);
        }
        if j - 1 < t.len() {
            assert(t[j - 1] == s[j]);
        }
        lemma_insert_gap_at(here, t, x, j - 1);
        assert(seq![s[0]] + (t.take(j - 1) + seq![x] + t.skip(j - 1)) =~= s.take(j) + seq![x] + s.skip(j));
    }
}

fn sorted_gaps(turn: &Turn, state: &BotState, role: &Unit, claimed: &Vec<Pos>) -> (r: Vec<Pos>)
    requires
        turn.wf(),
        state.wf(),
        role.wf(),
    ensures
        r@ == b_gaps(turn, state, *role, claimed@),
        forall|k: int| 0 <= k < r@.len() ==> pos_inner(#[trigger] r@[k]),
{
    proof {
        lemma_wall_gaps_inner(turn, state);
    }
    let gaps = wall_gaps(turn, state);
    let ghost pred = unclaimed(claimed@);
    let mut out: Vec<Pos> = Vec::new();
    let mut i: usize = 0;
    while i < gaps.len()
        invariant
            i <= gaps@.len(),
            role.wf(),
            pred == unclaimed(claimed@),
            forall|k: int| 0 <= k < gaps@.len() ==> pos_inner(#[trigger] gaps@[k]),
            out@ == sort_gaps(role.pos, gaps@.take(i as int).filter(pred)),
            forall|k: int| 0 <= k < out@.len() ==> pos_inner(#[trigger] out@[k]),
        decreases gaps@.len() - i,
    {
        proof {
            crate::model::lemma_filter_step(gaps@, i as int, pred);
        }
        let x = gaps[i];
        if !contains_pos(claimed, x) {
            let ghost before = out@;
            let ghost fb = gaps@.take(i as int).filter(pred);
            assert(fb.push(x).drop_last() =~= fb);
            let mut j: usize = 0;
            while j < out.len() && !(chebyshev(role.pos, x) < chebyshev(role.pos, out[j])
                || (chebyshev(role.pos, x) == chebyshev(role.pos, out[j])
                    && (x.x < out[j].x || (x.x == out[j].x && x.y < out[j].y))))
                invariant
                    j <= out@.len(),
                    out@ == before,
                    role.wf(),
                    pos_inner(x),
                    forall|k: int| 0 <= k < out@.len() ==> pos_inner(#[trigger] out@[k]),
                    forall|k: int| 0 <= k < j ==> !gap_before(role.pos, x, #[trigger] out@[k]),
                decreases out@.len() - j,
            {
                j += 1;
            }
            proof {
                lemma_insert_gap_at(role.pos, before, x, j as int);
            }
            out.insert(j, x);
            assert(out@ =~= before.take(j as int) + seq![x] + before.skip(j as int));
            assert forall|k: int| 0 <= k < out@.len() implies pos_inner(#[trigger] out@[k]) by {
                if k < j {
                    assert(out@[k] == before[k]);
                } else if k > j {
                    assert(out@[k] == before[k - 1]);
                }
            }
        }
        i += 1;
    }
    assert(gaps@.take(gaps@.len() as int) =~= gaps@);
    out
}

/// Walk the sorted gaps: skip one the trap veto holds (until the hard
/// seal); the first that builds or walks wins and is claimed.
pub open spec fn deliver_try(turn: &Turn, state: &BotState, role: Unit, gaps: Seq<Pos>, i: int, c0: Seq<Pos>,
    c1: Seq<Pos>, r: Option<RoleCommand>) -> bool
    decreases gaps.len() - i,
{
    if i < 0 || i >= gaps.len() {
        r is None && c1 == c0
    } else {
        let g = gaps[i];
        if spec_would_trap(turn, state, g, seq![role.id], spec_homes_by_role(turn)) && turn.in_day_round < HARD_SEAL_ROUND {
            deliver_try(turn, state, role, gaps, i + 1, c0, c1, r)
        } else if cheb(role.pos, g) == 1 && turn.spec_is_land(g) {
            r == Some(RoleCommand::Build(g, UnitKind::Wall)) && c1 == c0.push(g)
        } else {
            ||| (r is Some && c1.len() > 0 && c1.last() == g
                    && walk_result(turn, role, spec_neighbours(g).filter(land_pred(turn)), c0, c1.drop_last(), r))
            ||| (walk_result(turn, role, spec_neighbours(g).filter(land_pred(turn)), c0, c0, None)
                    && deliver_try(turn, state, role, gaps, i + 1, c0, c1, r))
        }
    }
}

/// Carry the stone in B's pack to the nearest open gap and lay it; B's own
/// id never vetoes B's own seal.
pub fn deliver_stone(turn: &Turn, state: &BotState, role: &Unit, claimed: &mut Vec<Pos>) -> (r: Option<RoleCommand>)
    requires
        turn.wf(),
        state.wf(),
        role.wf(),
    ensures
        deliver_try(turn, state, *role, b_gaps(turn, state, *role, old(claimed)@), 0, old(claimed)@, final(claimed)@, r),
        r is None ==> final(claimed)@ == old(claimed)@,
{
    let gaps = sorted_gaps(turn, state, role, claimed);
    let ghost c0 = claimed@;
    let ghost g = gaps@;
    let owned = vec![role.id];
    assert(owned@ =~= seq![role.id]);
    let mut i: usize = 0;
    while i < gaps.len()
        invariant
            i <= g.len(),
            g == gaps@,
            g == b_gaps(turn, state, *role, c0),
            turn.wf(),
            role.wf(),
            claimed@ == c0,
            c0 == old(claimed)@,
            owned@ == seq![role.id],
            forall|k: int| 0 <= k < g.len() ==> pos_inner(#[trigger] g[k]),
            forall|c1: Seq<Pos>, r: Option<RoleCommand>|
                #[trigger] deliver_try(turn, state, *role, g, i as int, c0, c1, r)
                ==> deliver_try(turn, state, *role, g, 0, c0, c1, r),
        decreases g.len() - i,
    {
        let gap = gaps[i];
        if wall_would_trap(turn, state, gap, &owned) && turn.in_day_round < HARD_SEAL_ROUND {
            assert forall|c1: Seq<Pos>, r: Option<RoleCommand>|
                #[trigger] deliver_try(turn, state, *role, g, i as int + 1, c0, c1, r)
                implies deliver_try(turn, state, *role, g, 0, c0, c1, r) by {
                assert(deliver_try(turn, state, *role, g, i as int, c0, c1, r));
            }
            i += 1;
            continue;
        }
        match build_or_walk(turn, role, gap, UnitKind::Wall, claimed) {
            Some(cmd) => {
                let ghost mid = claimed@;
                claimed.push(gap);
                proof {
                    assert(claimed@.drop_last() =~= mid);
                    assert(deliver_try(turn, state, *role, g, i as int, c0, claimed@, Some(cmd)));
                    assert(deliver_try(turn, state, *role, g, 0, c0, claimed@, Some(cmd)));
                }
                return Some(cmd);
            },
            None => {
                assert forall|c1: Seq<Pos>, r: Option<RoleCommand>|
                    #[trigger] deliver_try(turn, state, *role, g, i as int + 1, c0, c1, r)
                    implies deliver_try(turn, state, *role, g, 0, c0, c1, r) by {
                    assert(deliver_try(turn, state, *role, g, i as int, c0, c1, r));
                }
            },
        }
        i += 1;
    }
    assert(deliver_try(turn, state, *role, g, i as int, c0, c0, None));
    None
}

/// While every gap is vetoed, B camps at the nearest one's mouth: `None`
/// when no gap is open to B, `Some(None)` holding at the mouth, otherwise
/// the walk toward it.
pub open spec fn camp_result(turn: &Turn, state: &BotState, role: Unit, c0: Seq<Pos>, c1: Seq<Pos>,
    r: Option<Option<RoleCommand>>) -> bool {
    let gaps = b_gaps(turn, state, role, c0);
    if gaps.len() == 0 {
        r is None && c1 == c0
    } else if cheb(role.pos, gaps[0]) == 1 {
        r == Some(None::<RoleCommand>) && c1 == c0
    } else {
        r matches Some(w) && walk_result(turn, role, spec_neighbours(gaps[0]).filter(land_pred(turn)), c0, c1, w)
    }
}

pub fn camp_at_gap(turn: &Turn, state: &BotState, role: &Unit, claimed: &mut Vec<Pos>) -> (r: Option<Option<RoleCommand>>)
    requires
        turn.wf(),
        state.wf(),
        role.wf(),
    ensures
        camp_result(turn, state, *role, old(claimed)@, final(claimed)@, r),
{
    let gaps = sorted_gaps(turn, state, role, claimed);
    if gaps.len() == 0 {
        return None;
    }
    let gap = gaps[0];
    if chebyshev(role.pos, gap) == 1 {
        return Some(None);
    }
    let stands = stand_cells(turn, gap);
    Some(walk_toward(turn, role, &stands, claimed))
}

// ---------------------------------------------------------------------------
// The money loop's mine
// ---------------------------------------------------------------------------

/// B's latched vein, still good: on the map, not mined out, not claimed, not
/// blacked out, outside the robots' clearance, and still the right ore
/// (stone only while wanted, ore only while the ring is not hungry).
pub open spec fn latched_b(turn: &Turn, state: &BotState, stone_demand: int, hunger: bool, clearance: int,
    claimed: Seq<Pos>) -> Option<(Pos, Item)> {
    match state.vein_latch {
        None => None,
        Some(pos) => if hits_in(state.vein_hits@, pos) >= VEIN_COLLECT_LIMIT || claimed.contains(pos) {
            None
        } else {
            match mine_at(mine_list(turn.zones@), pos) {
                None => None,
                Some(ore) => if on_outage(state.outages@, ore, turn.day)
                    || (ore == Item::Stone && !spec_stone_wanted(turn, stone_demand, hunger))
                    || (ore != Item::Stone && hunger)
                    || !spec_night_safe(turn, pos, clearance) {
                    None
                } else {
                    Some((pos, ore))
                },
            }
        },
    }
}

fn latched_vein_b(turn: &Turn, state: &BotState, stone_demand: i64, hunger: bool, clearance: i32, claimed: &Vec<Pos>)
    -> (r: Option<(Pos, Item)>)
    requires
        turn.wf(),
        state.wf(),
        0 <= stone_demand <= 1_000_000,
    ensures
        r == latched_b(turn, state, stone_demand as int, hunger, clearance as int, claimed@),
        r matches Some(v) ==> pos_inner(v.0) && hits_in(state.vein_hits@, v.0) < VEIN_COLLECT_LIMIT,
{
    let pos = match state.vein_latch {
        None => return None,
        Some(p) => p,
    };
    if state.hits_of(pos) >= VEIN_COLLECT_LIMIT || contains_pos(claimed, pos) {
        return None;
    }
    let ore = match ore_at(turn, pos) {
        None => return None,
        Some(o) => o,
    };
    proof {
        lemma_mine_at_inner(mine_list(turn.zones@), pos);
        lemma_mine_list_inner(turn.zones@);
    }
    let wanted = hunger || !stone_covered(turn, stone_demand);
    if state.ore_on_outage(ore, turn.day) || (ore == Item::Stone && !wanted) || (ore != Item::Stone && hunger)
        || !night_safe(turn, pos, clearance) {
        return None;
    }
    Some((pos, ore))
}

/// The fresh pick: while the ring is hungry, deliverable stone outranks
/// every ore; otherwise (or when no stone survives) the best return.
pub open spec fn choose_b(turn: &Turn, state: &BotState, role: Unit, stone_demand: int, hunger: bool, clearance: int,
    claimed: Seq<Pos>) -> Option<(Pos, Item)> {
    let short = spec_stone_wanted(turn, stone_demand, hunger);
    let first = if hunger && short { spec_pick_vein(turn, state, role, short, clearance, claimed, true) } else { None };
    match first {
        Some(v) => Some(v),
        None => spec_pick_vein(turn, state, role, short, clearance, claimed, false),
    }
}

#[verifier::opaque]
pub open spec fn mine_b_result(turn: &Turn, s0: &BotState, s1: &BotState, role: Unit, stone_demand: int,
    hunger: bool, clearance: int, c0: Seq<Pos>, c1: Seq<Pos>, r: Option<RoleCommand>) -> bool {
    let latched = latched_b(turn, s0, stone_demand, hunger, clearance, c0);
    let pick = match latched {
        Some(v) => Some(v),
        None => choose_b(turn, s0, role, stone_demand, hunger, clearance, c0),
    };
    match pick {
        None => r is None && c1 == c0 && *s1 == *s0,
        Some(v) => {
            let sm = if latched is None { BotState { vein_latch: Some(v.0), ..*s0 } } else { *s0 };
            run_vein_result(turn, &sm, s1, role, v.0, c0, c1, r)
        },
    }
}

fn mine_b(turn: &Turn, state: &mut BotState, role: &Unit, stone_demand: i64, hunger: bool, clearance: i32,
    claimed: &mut Vec<Pos>) -> (r: Option<RoleCommand>)
    requires
        turn.wf(),
        role.wf(),
        old(state).wf(),
        0 <= stone_demand <= 1_000_000,
    ensures
        mine_b_result(turn, old(state), final(state), *role, stone_demand as int, hunger, clearance as int,
            old(claimed)@, final(claimed)@, r),
        final(state).wf(),
{
    proof {
        reveal(mine_b_result);
    }
    let vein = match latched_vein_b(turn, state, stone_demand, hunger, clearance, claimed) {
        Some(v) => v,
        None => {
            let short = hunger || !stone_covered(turn, stone_demand);
            let first = if hunger && short {
                pick_vein(turn, state, role, short, clearance, claimed, true)
            } else {
                None
            };
            let pick = match first {
                Some(v) => Some(v),
                None => pick_vein(turn, state, role, short, clearance, claimed, false),
            };
            match pick {
                None => return None,
                Some(v) => {
                    state.vein_latch = Some(v.0);
                    v
                },
            }
        },
    };
    run_vein(turn, state, role, vein.0, claimed)
}

// ---------------------------------------------------------------------------
// The chain
// ---------------------------------------------------------------------------

/// The claims a declined day-one help leaves: the slot it walked for.
pub open spec fn help_claims(turn: &Turn, s0: &BotState, c0: Seq<Pos>) -> Seq<Pos> {
    if turn.day != 1 || !turn.is_day || s0.d1_weapon_helped || !spec_may_build_weapon(turn) {
        c0
    } else {
        match min_site(spec_tower_gaps(turn, s0), c0) {
            None => c0,
            Some((site, _)) => c0.push(site),
        }
    }
}

pub open spec fn b_clearance(turn: &Turn) -> int {
    if turn.is_day { 0 } else { NIGHT_ROBOT_CLEARANCE as int }
}

/// A sell trigger owns the round unless the hungry ring outranks it (only
/// the full pack and a teammate's Medicine money keep their rank); then the
/// mine.
#[verifier::opaque]
pub open spec fn b_money(turn: &Turn, s0: &BotState, s1: &BotState, role: Unit, treasure_live: bool, c0: Seq<Pos>,
    c1: Seq<Pos>, r: Option<RoleCommand>) -> bool {
    let demand = spec_stone_demand(turn, s0);
    let hunger = spec_wall_hunger(turn, s0, demand, role);
    let mine = mine_b_result(turn, s0, s1, role, demand, hunger, b_clearance(turn), c0, c1, r);
    match spec_sell_trigger_b(turn, s0, role, demand, treasure_live) {
        Some(t) => {
            let ring_first = hunger && t != SellTrigger::BackpackFull && t != SellTrigger::MedicineGold
                && (role.spec_count(Item::Stone) > 0 || spec_stone_reachable(turn, s0, role));
            if ring_first {
                mine
            } else {
                *s1 == *s0 && if spec_sellable_ores(turn, role, demand) <= 0 || (hunger && t == SellTrigger::BackpackFull) {
                    match spec_discard_command(turn, s0, role, demand) {
                        Some(c) => r == Some(c) && c1 == c0,
                        None => sell_flow_result(turn, s0, role, demand, c0, c1, r),
                    }
                } else {
                    sell_flow_result(turn, s0, role, demand, c0, c1, r)
                }
            }
        },
        None => mine,
    }
}

/// Stone in the pack the ring wants goes to the ring first, once the haul
/// is complete (the debt covered, the pack full, or no stone left to dig):
/// the delivery, else the camp at the nearest gap's mouth.
#[verifier::opaque]
pub open spec fn b_loop(turn: &Turn, s0: &BotState, s1: &BotState, role: Unit, treasure_live: bool, c0: Seq<Pos>,
    c1: Seq<Pos>, r: Option<RoleCommand>) -> bool {
    let demand = spec_stone_demand(turn, s0);
    let hunger = spec_wall_hunger(turn, s0, demand, role);
    let stone = role.spec_count(Item::Stone);
    let free = if role.capacity - role.backpack@.len() > 0 { role.capacity - role.backpack@.len() } else { 0 };
    let gate = turn.is_day && stone > 0 && spec_stone_wanted(turn, demand, hunger)
        && (stone >= spec_wall_gaps(turn, s0).len() || free <= 0 || !spec_stone_reachable(turn, s0, role));
    if gate {
        let gaps = b_gaps(turn, s0, role, c0);
        ||| (r is Some && *s1 == *s0 && deliver_try(turn, s0, role, gaps, 0, c0, c1, r))
        ||| (deliver_try(turn, s0, role, gaps, 0, c0, c0, None) && if gaps.len() == 0 {
                b_money(turn, s0, s1, role, treasure_live, c0, c1, r)
            } else if cheb(role.pos, gaps[0]) == 1 {
                r is None && c1 == c0 && *s1 == *s0
            } else {
                *s1 == *s0 && walk_result(turn, role, spec_neighbours(gaps[0]).filter(land_pred(turn)), c0, c1, r)
            })
    } else {
        b_money(turn, s0, s1, role, treasure_live, c0, c1, r)
    }
}

/// B's whole chain: step away from robots, heal, buy a Medicine when hurt,
/// help with the first tower on day one, then the ring and the money loop.
#[verifier::opaque]
pub open spec fn b_day(turn: &Turn, s0: &BotState, s1: &BotState, role: Unit, treasure_live: bool, c0: Seq<Pos>,
    c1: Seq<Pos>, r: Option<RoleCommand>) -> bool {
    let help = {
        let cm = help_claims(turn, s0, c0);
        ||| (r is Some && help_result(turn, s0, s1, role, c0, c1, r))
        ||| (help_result(turn, s0, s0, role, c0, cm, None) && b_loop(turn, s0, s1, role, treasure_live, cm, c1, r))
    };
    match spec_evasion(turn, role, b_clearance(turn)) {
        Some(c) => r == Some(c) && c1 == c0 && *s1 == *s0,
        None => match spec_use_medicine(role) {
            Some(c) => r == Some(c) && c1 == c0 && *s1 == *s0,
            None => if spec_hurt(role) {
                ||| (r is Some && *s1 == *s0 && provision_result(turn, role, true, c0, c1, r))
                ||| (provision_result(turn, role, true, c0, c0, None) && help)
            } else {
                help
            },
        },
    }
}

fn money(turn: &Turn, state: &mut BotState, role: &Unit, treasure_live: bool, claimed: &mut Vec<Pos>)
    -> (r: Option<RoleCommand>)
    requires
        turn.wf(),
        role.wf(),
        old(state).wf(),
    ensures
        b_money(turn, old(state), final(state), *role, treasure_live, old(claimed)@, final(claimed)@, r),
        final(state).wf(),
{
    proof {
        reveal(b_money);
    }
    let demand = stone_demand_of(turn, state);
    let hunger = day1_wall_hunger(turn, state, demand, role);
    let clearance: i32 = if turn.is_day { 0 } else { NIGHT_ROBOT_CLEARANCE };
    if let Some(t) = sell_trigger_b(turn, state, role, demand, treasure_live) {
        let ring_first = hunger && t != SellTrigger::BackpackFull && t != SellTrigger::MedicineGold
            && (role.count_item(Item::Stone) > 0 || stone_reachable(turn, state, role));
        if !ring_first {
            if sellable_ores(turn, role, demand) <= 0 || (hunger && t == SellTrigger::BackpackFull) {
                let dump = discard_command(turn, state, role, demand);
                if dump.is_some() {
                    return dump;
                }
                return sell_flow(turn, state, role, demand, claimed);
            }
            return sell_flow(turn, state, role, demand, claimed);
        }
    }
    mine_b(turn, state, role, demand, hunger, clearance, claimed)
}

fn ring_or_money(turn: &Turn, state: &mut BotState, role: &Unit, treasure_live: bool, claimed: &mut Vec<Pos>)
    -> (r: Option<RoleCommand>)
    requires
        turn.wf(),
        role.wf(),
        old(state).wf(),
    ensures
        b_loop(turn, old(state), final(state), *role, treasure_live, old(claimed)@, final(claimed)@, r),
        final(state).wf(),
{
    proof {
        reveal(b_loop);
    }
    let demand = stone_demand_of(turn, state);
    let hunger = day1_wall_hunger(turn, state, demand, role);
    let stone = role.count_item(Item::Stone);
    if turn.is_day && stone > 0 && (hunger || !stone_covered(turn, demand)) {
        proof {
            lemma_wall_gaps_inner(turn, state);
        }
        let debt = wall_gaps(turn, state).len();
        if stone as u64 >= debt as u64 || free_slots(role) <= 0 || !stone_reachable(turn, state, role) {
            let delivered = deliver_stone(turn, state, role, claimed);
            if delivered.is_some() {
                return delivered;
            }
            match camp_at_gap(turn, state, role, claimed) {
                Some(w) => return w,
                None => {},
            }
        }
    }
    money(turn, state, role, treasure_live, claimed)
}

/// B's chain: the first step that gives a command owns the round.
pub fn mainline(turn: &Turn, state: &mut BotState, role: &Unit, treasure_live: bool, claimed: &mut Vec<Pos>)
    -> (r: Option<RoleCommand>)
    requires
        turn.wf(),
        role.wf(),
        old(state).wf(),
    ensures
        b_day(turn, old(state), final(state), *role, treasure_live, old(claimed)@, final(claimed)@, r),
        final(state).wf(),
{
    proof {
        reveal(b_day);
    }
    let clearance: i32 = if turn.is_day { 0 } else { NIGHT_ROBOT_CLEARANCE };
    let step = robot_evasion(turn, role, clearance);
    if step.is_some() {
        return step;
    }
    let heal = use_medicine(role);
    if heal.is_some() {
        return heal;
    }
    if hurt(role) {
        let buy = self_provision(turn, role, claimed, true);
        if buy.is_some() {
            return buy;
        }
    }
    let help = d1_weapon_help(turn, state, role, claimed);
    if help.is_some() {
        return help;
    }
    ring_or_money(turn, state, role, treasure_live, claimed)
}

/// Index of the first unit of `s` with this id.
pub open spec fn unit_index(s: Seq<Unit>, id: i64) -> Option<int>
    decreases s.len(),
{
    if s.len() == 0 {
        None
    } else if s[0].id == id {
        Some(0)
    } else {
        match unit_index(s.drop_first(), id) {
            Some(i) => Some(i + 1),
            None => None,
        }
    }
}

/// The first unit of `s` with this id.
pub open spec fn unit_of(s: Seq<Unit>, id: i64) -> Option<Unit> {
    match unit_index(s, id) {
        Some(i) => Some(s[i]),
        None => None,
    }
}

pub proof fn lemma_unit_of(s: Seq<Unit>, id: i64)
    ensures
        match unit_index(s, id) {
            Some(i) => 0 <= i < s.len() && s[i].id == id && forall|j: int| 0 <= j < i ==> (#[trigger] s[j]).id != id,
            None => forall|j: int| 0 <= j < s.len() ==> (#[trigger] s[j]).id != id,
        },
    decreases s.len(),
{
    if s.len() > 0 && s[0].id != id {
        lemma_unit_of(s.drop_first(), id);
        match unit_index(s.drop_first(), id) {
            Some(i) => {
                assert forall|j: int| 0 <= j < i + 1 implies (#[trigger] s[j]).id != id by {
                    if j > 0 { assert(s[j] == s.drop_first()[j - 1]); }
                }
            },
            None => {
                assert forall|j: int| 0 <= j < s.len() implies (#[trigger] s[j]).id != id by {
                    if j > 0 { assert(s[j] == s.drop_first()[j - 1]); }
                }
            },
        }
    }
}

/// What B's round does.
pub open spec fn b_round(turn: &Turn, id: i64, treasure_live: bool, s0: &BotState, s1: &BotState, c0: Seq<Pos>,
    c1: Seq<Pos>, p0: Plan, p1: Plan) -> bool {
    match unit_of(turn.ours@, id) {
        Some(role) => if role.health <= 0 {
            *s1 == *s0 && c1 == c0 && p1 == p0
        } else {
            exists|r: Option<RoleCommand>| #[trigger] b_day(turn, s0, s1, role, treasure_live, c0, c1, r) && match r {
                Some(c) => plan_pushed(p0, p1, id, c),
                None => p1 == p0,
            }
        },
        None => *s1 == *s0 && c1 == c0 && p1 == p0,
    }
}

/// Plan B's round and merge its command into `plan`. `treasure_live` says
/// whether a treasure plan is live (its floor is a sell trigger).
pub fn plan(turn: &Turn, state: &mut BotState, id: i64, treasure_live: bool, claimed: &mut Vec<Pos>, plan: &mut Plan)
    requires
        turn.wf(),
        old(state).wf(),
    ensures
        distinct_ids(old(plan).commands@) ==> distinct_ids(final(plan).commands@),
        final(state).wf(),
        b_round(turn, id, treasure_live, old(state), final(state), old(claimed)@, final(claimed)@, *old(plan), *final(plan)),
        match unit_of(turn.ours@, id) {
            Some(role) => if role.health <= 0 {
                *final(state) == *old(state) && final(claimed)@ == old(claimed)@ && *final(plan) == *old(plan)
            } else {
                exists|r: Option<RoleCommand>| #[trigger] b_day(turn, old(state), final(state), role, treasure_live,
                    old(claimed)@, final(claimed)@, r) && match r {
                    Some(c) => plan_pushed(*old(plan), *final(plan), id, c),
                    None => *final(plan) == *old(plan),
                }
            },
            None => *final(state) == *old(state) && final(claimed)@ == old(claimed)@ && *final(plan) == *old(plan),
        },
{
    let role = match turn.role_by_id(id) {
        Some(r) => r,
        None => {
            proof {
                lemma_unit_of(turn.ours@, id);
                if let Some(k) = unit_index(turn.ours@, id) {
                    assert(turn.ours@[k].id == id);
                }
            }
            return;
        },
    };
    proof {
        lemma_unit_of(turn.ours@, id);
        let i = choose|i: int| 0 <= i < turn.ours@.len() && turn.ours@[i] == *role
            && forall|j: int| 0 <= j < i ==> turn.ours@[j].id != id;
        match unit_index(turn.ours@, id) {
            Some(k) => { if k < i { } else if k > i { } },
            None => { assert(turn.ours@[i].id == id); },
        }
    }
    assert(role.wf());
    if !role.alive() {
        return;
    }
    let r = mainline(turn, state, role, treasure_live, claimed);
    let ghost rr = r;
    match r {
        Some(cmd) => plan.push(id, cmd),
        None => {},
    }
    assert(b_day(turn, old(state), state, *role, treasure_live, old(claimed)@, claimed@, rr));
}

} // verus!
