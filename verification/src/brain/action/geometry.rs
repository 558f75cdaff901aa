//! Wall geometry: the ring's gap list, debt count, layers and budgets, and
//! the safety checks that keep the wall line from sealing the crew out.

use vstd::prelude::*;
use crate::model::{Pos, Turn, Unit, UnitKind, wall_pos_list, all_unit_cells, spec_blocked_for, is_controllable, spec_neighbours, COORD_LIMIT, WEAPON_BUILD_COST, cheb, fp_dist,
    footprint_distance, contains_pos, chebyshev, pos_ok, all_pos_ok, lemma_first_station};
use crate::state::BotState;
use crate::path::{step_toward_stands, reaches, in_grid};
use crate::brain::role::{Roles, spec_roles};
use crate::brain::action::base_layout;

verus! {

/// Day 1 may complete the whole radius-2 shell.
pub const D1_WALL_CAP: i64 = 20;
/// Later days keep a maintenance budget.
pub const LATER_WALL_CAP: i64 = 6;
/// First day the second wall layer may be paid for.
pub const SECOND_LAYER_MIN_DAY: i64 = 2;
/// Ring-3 cells the day may ask for at most.
pub const SECOND_LAYER_BATCH: usize = 4;
/// Cells kept clear around the permanent entrance before the second layer.
pub const SECOND_LAYER_ENTRANCE_CLEARANCE: i32 = 2;
/// Stones to carry before walking out to the wall line on a maintenance day.
pub const STONE_BATCH: i64 = 6;
/// Day 1 carries the whole remaining ring in one trip.
pub const RING_BATCH: i64 = 20;
/// Rounds kept in hand on top of the walk home before a carrier gives up.
pub const WALL_TRIP_SLACK: i64 = 3;
/// Day-rounds after dusk a stone carrier may still close the ring.
pub const SEAL_GRACE: i64 = 8;
/// The day-round past which the ring is closed whether or not the crew is
/// home: a straggler outside can cut back in, an open ring cannot be fixed
/// at night.
pub const HARD_SEAL_ROUND: i64 = crate::brain::economy::DUSK_ROUND + 11;

pub open spec fn spec_wall_daily_cap(day: i64, ring_ever_complete: bool, primary_open: usize) -> i64 {
    if day == 1 || ring_ever_complete || primary_open > 0 { D1_WALL_CAP } else { LATER_WALL_CAP }
}

/// How many ring cells this day's fortification budget covers: the whole
/// shell on day 1, on a ring that has been whole before, or whenever the ring
/// is open now; otherwise the 6-cell maintenance budget.
pub fn wall_daily_cap(day: i64, ring_ever_complete: bool, primary_open: usize) -> (cap: i64)
    ensures
        cap == spec_wall_daily_cap(day, ring_ever_complete, primary_open),
{
    if day == 1 || ring_ever_complete || primary_open > 0 {
        D1_WALL_CAP
    } else {
        LATER_WALL_CAP
    }
}

pub open spec fn spec_tower_build_reserve(tower_count: int, gap_count: int) -> int {
    let free = if 3 - tower_count > 0 { 3 - tower_count } else { 0 };
    let n = if free < gap_count { free } else { gap_count };
    n * WEAPON_BUILD_COST
}

/// Gold reserved for tower builds: one build per empty slot up to three
/// towers, and no more than there are sites to build on.
pub fn tower_build_reserve(tower_count: usize, gap_count: usize) -> (r: i64)
    ensures
        r == spec_tower_build_reserve(tower_count as int, gap_count as int),
{
    let free: i64 = if tower_count < 3 { 3 - tower_count as i64 } else { 0 };
    let n: i64 = if (gap_count as u64) < (free as u64) { gap_count as i64 } else { free };
    n * WEAPON_BUILD_COST
}

// ---------------------------------------------------------------------------
// Ring shells around a footprint
// ---------------------------------------------------------------------------

pub open spec fn min_x(s: Seq<Pos>) -> int
    decreases s.len(),
{
    if s.len() == 0 { 0 } else if s.len() == 1 { s[0].x as int } else {
        let m = min_x(s.drop_last());
        if s.last().x < m { s.last().x as int } else { m }
    }
}

pub open spec fn max_x(s: Seq<Pos>) -> int
    decreases s.len(),
{
    if s.len() == 0 { 0 } else if s.len() == 1 { s[0].x as int } else {
        let m = max_x(s.drop_last());
        if s.last().x > m { s.last().x as int } else { m }
    }
}

pub open spec fn min_y(s: Seq<Pos>) -> int
    decreases s.len(),
{
    if s.len() == 0 { 0 } else if s.len() == 1 { s[0].y as int } else {
        let m = min_y(s.drop_last());
        if s.last().y < m { s.last().y as int } else { m }
    }
}

pub open spec fn max_y(s: Seq<Pos>) -> int
    decreases s.len(),
{
    if s.len() == 0 { 0 } else if s.len() == 1 { s[0].y as int } else {
        let m = max_y(s.drop_last());
        if s.last().y > m { s.last().y as int } else { m }
    }
}

/// Footprint cells far enough from the coordinate limit for a shell of
/// radius up to five around them.
pub open spec fn cells_within(s: Seq<Pos>) -> bool {
    forall|i: int| 0 <= i < s.len() ==>
        -COORD_LIMIT + 5 <= (#[trigger] s[i]).x <= COORD_LIMIT - 5 && -COORD_LIMIT + 5 <= s[i].y <= COORD_LIMIT - 5
}

proof fn lemma_bounds_within(s: Seq<Pos>)
    requires
        cells_within(s),
    ensures
        -COORD_LIMIT + 5 <= min_x(s) <= COORD_LIMIT - 5,
        -COORD_LIMIT + 5 <= max_x(s) <= COORD_LIMIT - 5,
        -COORD_LIMIT + 5 <= min_y(s) <= COORD_LIMIT - 5,
        -COORD_LIMIT + 5 <= max_y(s) <= COORD_LIMIT - 5,
    decreases s.len(),
{
    if s.len() > 1 {
        let d = s.drop_last();
        assert(cells_within(d)) by {
            assert forall|i: int| 0 <= i < d.len() implies
                -COORD_LIMIT + 5 <= (#[trigger] d[i]).x <= COORD_LIMIT - 5 && -COORD_LIMIT + 5 <= d[i].y <= COORD_LIMIT - 5 by {
                assert(d[i] == s[i]);
            }
        }
        lemma_bounds_within(d);
        assert(s.last() == s[s.len() - 1]);
    } else if s.len() == 1 {
        assert(s[0] == s[0]);
    }
}

/// The ring cells of column `x` for `y` in `y0..yend`, bottom to top.
pub open spec fn ring_col(fp: Seq<Pos>, r: int, x: int, y0: int, yend: int) -> Seq<Pos>
    decreases yend - y0,
{
    if yend <= y0 {
        Seq::empty()
    } else {
        let p = Pos { x: x as i32, y: (yend - 1) as i32 };
        ring_col(fp, r, x, y0, yend - 1) + if !fp.contains(p) && fp_dist(p, fp) == r { seq![p] } else { Seq::empty() }
    }
}

/// The ring cells of columns `x0..xend`, x-major.
pub open spec fn ring_grid(fp: Seq<Pos>, r: int, x0: int, xend: int, y0: int, y1: int) -> Seq<Pos>
    decreases xend - x0,
{
    if xend <= x0 {
        Seq::empty()
    } else {
        ring_grid(fp, r, x0, xend - 1, y0, y1) + ring_col(fp, r, xend - 1, y0, y1 + 1)
    }
}

/// Every cell at footprint distance exactly `r` inside the footprint's
/// bounding box grown by `r`, x-major then y.
pub open spec fn spec_ring_cells(fp: Seq<Pos>, r: int) -> Seq<Pos> {
    ring_grid(fp, r, min_x(fp) - r, max_x(fp) + r + 1, min_y(fp) - r, max_y(fp) + r)
}

proof fn lemma_ring_col_prop(fp: Seq<Pos>, r: int, x: int, y0: int, yend: int)
    ensures
        forall|i: int| 0 <= i < ring_col(fp, r, x, y0, yend).len() ==>
            !fp.contains(#[trigger] ring_col(fp, r, x, y0, yend)[i]) && fp_dist(ring_col(fp, r, x, y0, yend)[i], fp) == r,
    decreases yend - y0,
{
    if yend > y0 {
        lemma_ring_col_prop(fp, r, x, y0, yend - 1);
        let a = ring_col(fp, r, x, y0, yend - 1);
        let c = ring_col(fp, r, x, y0, yend);
        assert forall|i: int| 0 <= i < c.len() implies !fp.contains(#[trigger] c[i]) && fp_dist(c[i], fp) == r by {
            if i < a.len() {
                assert(c[i] == a[i]);
            }
        }
    }
}

proof fn lemma_ring_grid_prop(fp: Seq<Pos>, r: int, x0: int, xend: int, y0: int, y1: int)
    ensures
        forall|i: int| 0 <= i < ring_grid(fp, r, x0, xend, y0, y1).len() ==>
            !fp.contains(#[trigger] ring_grid(fp, r, x0, xend, y0, y1)[i])
            && fp_dist(ring_grid(fp, r, x0, xend, y0, y1)[i], fp) == r,
    decreases xend - x0,
{
    if xend > x0 {
        lemma_ring_grid_prop(fp, r, x0, xend - 1, y0, y1);
        lemma_ring_col_prop(fp, r, xend - 1, y0, y1 + 1);
        let a = ring_grid(fp, r, x0, xend - 1, y0, y1);
        let b = ring_col(fp, r, xend - 1, y0, y1 + 1);
        let c = ring_grid(fp, r, x0, xend, y0, y1);
        assert forall|i: int| 0 <= i < c.len() implies !fp.contains(#[trigger] c[i]) && fp_dist(c[i], fp) == r by {
            if i < a.len() {
                assert(c[i] == a[i]);
            } else {
                assert(c[i] == b[i - a.len()]);
            }
        }
    }
}

/// `a` comes before `b` in (x, y) order.
pub open spec fn xy_lt(a: Pos, b: Pos) -> bool {
    a.x < b.x || (a.x == b.x && a.y < b.y)
}

/// Strictly increasing in (x, y) order.
pub open spec fn xy_sorted(s: Seq<Pos>) -> bool {
    forall|i: int, j: int| 0 <= i < j < s.len() ==> xy_lt(#[trigger] s[i], #[trigger] s[j])
}

proof fn lemma_ring_col_sorted(fp: Seq<Pos>, r: int, x: int, y0: int, yend: int)
    requires
        i32::MIN <= x <= i32::MAX,
        i32::MIN <= y0,
        yend <= i32::MAX + 1,
    ensures
        xy_sorted(ring_col(fp, r, x, y0, yend)),
        forall|i: int| 0 <= i < ring_col(fp, r, x, y0, yend).len() ==>
            (#[trigger] ring_col(fp, r, x, y0, yend)[i]).x == x && y0 <= ring_col(fp, r, x, y0, yend)[i].y < yend,
    decreases yend - y0,
{
    if yend > y0 {
        lemma_ring_col_sorted(fp, r, x, y0, yend - 1);
        let a = ring_col(fp, r, x, y0, yend - 1);
        let c = ring_col(fp, r, x, y0, yend);
        assert forall|i: int| 0 <= i < c.len() implies (#[trigger] c[i]).x == x && y0 <= c[i].y < yend by {
            if i < a.len() {
                assert(c[i] == a[i]);
            }
        }
        assert forall|i: int, j: int| 0 <= i < j < c.len() implies xy_lt(#[trigger] c[i], #[trigger] c[j]) by {
            if j < a.len() {
                assert(c[i] == a[i] && c[j] == a[j]);
            } else {
                assert(c[i] == a[i]);
                assert(c[j].y == yend - 1);
            }
        }
    }
}

proof fn lemma_ring_grid_sorted(fp: Seq<Pos>, r: int, x0: int, xend: int, y0: int, y1: int)
    requires
        i32::MIN <= x0,
        xend <= i32::MAX + 1,
        i32::MIN <= y0,
        y1 + 1 <= i32::MAX + 1,
    ensures
        xy_sorted(ring_grid(fp, r, x0, xend, y0, y1)),
        forall|i: int| 0 <= i < ring_grid(fp, r, x0, xend, y0, y1).len() ==>
            x0 <= (#[trigger] ring_grid(fp, r, x0, xend, y0, y1)[i]).x < xend
            && y0 <= ring_grid(fp, r, x0, xend, y0, y1)[i].y <= y1,
    decreases xend - x0,
{
    if xend > x0 {
        lemma_ring_grid_sorted(fp, r, x0, xend - 1, y0, y1);
        lemma_ring_col_sorted(fp, r, xend - 1, y0, y1 + 1);
        let a = ring_grid(fp, r, x0, xend - 1, y0, y1);
        let b = ring_col(fp, r, xend - 1, y0, y1 + 1);
        let c = ring_grid(fp, r, x0, xend, y0, y1);
        assert forall|i: int| 0 <= i < c.len() implies x0 <= (#[trigger] c[i]).x < xend && y0 <= c[i].y <= y1 by {
            if i < a.len() {
                assert(c[i] == a[i]);
            } else {
                assert(c[i] == b[i - a.len()]);
            }
        }
        assert forall|i: int, j: int| 0 <= i < j < c.len() implies xy_lt(#[trigger] c[i], #[trigger] c[j]) by {
            if j < a.len() {
                assert(c[i] == a[i] && c[j] == a[j]);
            } else if i < a.len() {
                assert(c[i] == a[i]);
                assert(c[j] == b[j - a.len()]);
            } else {
                assert(c[i] == b[i - a.len()]);
                assert(c[j] == b[j - a.len()]);
            }
        }
    }
}

/// Every cell of a shell of radius at most five lies in the coordinate range.
pub proof fn lemma_ring_cells_ok(fp: Seq<Pos>, r: int)
    requires
        cells_within(fp),
        0 <= r <= 5,
    ensures
        all_pos_ok(spec_ring_cells(fp, r)),
{
    lemma_bounds_within(fp);
    lemma_ring_grid_sorted(fp, r, min_x(fp) - r, max_x(fp) + r + 1, min_y(fp) - r, max_y(fp) + r);
}

/// The shell of cells at footprint distance exactly `radius`, x-major. Every
/// cell it lists is off the footprint and exactly `radius` away from it.
pub fn ring_cells(fp: &[Pos], radius: i32) -> (cells: Vec<Pos>)
    requires
        0 <= radius <= 5,
        cells_within(fp@),
        all_pos_ok(fp@),
    ensures
        cells@ == spec_ring_cells(fp@, radius as int),
        forall|i: int| 0 <= i < cells@.len() ==>
            !fp@.contains(#[trigger] cells@[i]) && fp_dist(cells@[i], fp@) == radius,
        xy_sorted(cells@),
{
    proof {
        lemma_bounds_within(fp@);
        lemma_ring_grid_sorted(fp@, radius as int, min_x(fp@) - radius, max_x(fp@) + radius + 1, min_y(fp@) - radius, max_y(fp@) + radius);
    }
    let mut xmin: i32 = 0;
    let mut xmax: i32 = 0;
    let mut ymin: i32 = 0;
    let mut ymax: i32 = 0;
    let mut i: usize = 0;
    while i < fp.len()
        invariant
            i <= fp@.len(),
            cells_within(fp@),
            xmin == min_x(fp@.take(i as int)),
            xmax == max_x(fp@.take(i as int)),
            ymin == min_y(fp@.take(i as int)),
            ymax == max_y(fp@.take(i as int)),
        decreases fp@.len() - i,
    {
        assert(fp@.take(i as int + 1).drop_last() =~= fp@.take(i as int));
        let p = fp[i];
        if i == 0 {
            xmin = p.x;
            xmax = p.x;
            ymin = p.y;
            ymax = p.y;
        } else {
            if p.x < xmin { xmin = p.x; }
            if p.x > xmax { xmax = p.x; }
            if p.y < ymin { ymin = p.y; }
            if p.y > ymax { ymax = p.y; }
        }
        i += 1;
    }
    assert(fp@.take(fp@.len() as int) =~= fp@);
    let mut out: Vec<Pos> = Vec::new();
    let mut x: i32 = xmin - radius;
    while x <= xmax + radius
        invariant
            0 <= radius <= 5,
            xmin == min_x(fp@),
            xmax == max_x(fp@),
            ymin == min_y(fp@),
            ymax == max_y(fp@),
            -COORD_LIMIT + 5 <= xmin <= COORD_LIMIT - 5,
            -COORD_LIMIT + 5 <= xmax <= COORD_LIMIT - 5,
            -COORD_LIMIT + 5 <= ymin <= COORD_LIMIT - 5,
            -COORD_LIMIT + 5 <= ymax <= COORD_LIMIT - 5,
            all_pos_ok(fp@),
            xmin - radius <= x <= xmax + radius + 1 || xmax + radius + 1 < xmin - radius,
            x >= xmin - radius,
            out@ == ring_grid(fp@, radius as int, xmin - radius, x as int, ymin - radius, ymax + radius),
        decreases xmax + radius + 1 - x,
    {
        let mut y: i32 = ymin - radius;
        while y <= ymax + radius
            invariant
                0 <= radius <= 5,
                -COORD_LIMIT + 5 <= xmin <= COORD_LIMIT - 5,
                -COORD_LIMIT + 5 <= xmax <= COORD_LIMIT - 5,
                -COORD_LIMIT + 5 <= ymin <= COORD_LIMIT - 5,
                -COORD_LIMIT + 5 <= ymax <= COORD_LIMIT - 5,
                xmin - radius <= x <= xmax + radius,
                all_pos_ok(fp@),
                ymin - radius <= y <= ymax + radius + 1,
                out@ == ring_grid(fp@, radius as int, xmin - radius, x as int, ymin - radius, ymax + radius)
                    + ring_col(fp@, radius as int, x as int, ymin - radius, y as int),
            decreases ymax + radius + 1 - y,
        {
            let p = Pos { x, y };
            let ghost before = out@;
            if !contains_pos(fp, p) && footprint_distance(p, fp) == radius {
                out.push(p);
            }
            assert(out@ =~= ring_grid(fp@, radius as int, xmin - radius, x as int, ymin - radius, ymax + radius)
                + ring_col(fp@, radius as int, x as int, ymin - radius, y as int + 1));
            y += 1;
        }
        x += 1;
    }
    proof {
        lemma_ring_grid_prop(fp@, radius as int, min_x(fp@) - radius, max_x(fp@) + radius + 1, min_y(fp@) - radius, max_y(fp@) + radius);
    }
    out
}


// ---------------------------------------------------------------------------
// The primary ring: gaps, debt and the pending list
// ---------------------------------------------------------------------------

/// A cell the sweep may be sent to: land, no wall yet, nobody standing on it,
/// never refused.
pub open spec fn gap_pred(turn: &Turn, state: &BotState) -> spec_fn(Pos) -> bool {
    |p: Pos| turn.spec_is_land(p) && !wall_pos_list(turn.ours@).contains(p)
        && !all_unit_cells(turn.ours@).contains(p) && !state.spec_blacklisted(p, UnitKind::Wall)
}

/// A cell the night still finds open: land, no wall, never refused.
pub open spec fn open_pred(turn: &Turn, state: &BotState) -> spec_fn(Pos) -> bool {
    |p: Pos| turn.spec_is_land(p) && !wall_pos_list(turn.ours@).contains(p)
        && !state.spec_blacklisted(p, UnitKind::Wall)
}

/// The fixed build order, laid on the board.
pub open spec fn spec_order(turn: &Turn) -> Seq<Pos> {
    base_layout::spec_lay(turn, base_layout::order_offsets())
}

pub open spec fn spec_primary_wall_gaps(turn: &Turn, state: &BotState) -> Seq<Pos> {
    if turn.spec_station() is None {
        Seq::empty()
    } else {
        spec_order(turn).filter(gap_pred(turn, state))
    }
}

/// The primary ring's still-missing wall cells, in the fixed build order:
/// front column, top row, bottom row. Entrance cells are never offered, and
/// neither are standing walls, cells under one of our units, refused cells or
/// non-land.
pub fn primary_wall_gaps(turn: &Turn, state: &BotState) -> (gaps: Vec<Pos>)
    requires
        turn.wf(),
    ensures
        gaps@ == spec_primary_wall_gaps(turn, state),
{
    if turn.station().is_none() {
        return Vec::new();
    }
    let walls = turn.wall_positions();
    let occupied = turn.occupied_cells();
    let order = base_layout::wall_build_order(turn);
    let ghost pred = gap_pred(turn, state);
    let mut out: Vec<Pos> = Vec::new();
    let mut i: usize = 0;
    while i < order.len()
        invariant
            i <= order@.len(),
            walls@ == wall_pos_list(turn.ours@),
            occupied@ == all_unit_cells(turn.ours@),
            pred == gap_pred(turn, state),
            out@ == order@.take(i as int).filter(pred),
        decreases order@.len() - i,
    {
        proof {
            crate::model::lemma_filter_step(order@, i as int, pred);
        }
        let p = order[i];
        if turn.is_land(p) && !contains_pos(&walls, p) && !contains_pos(&occupied, p)
            && !state.blacklisted(p, UnitKind::Wall) {
            out.push(p);
        }
        i += 1;
    }
    assert(order@.take(order@.len() as int) =~= order@);
    out
}

pub open spec fn spec_ring_open_cells(turn: &Turn, state: &BotState) -> int {
    if turn.spec_station() is None {
        0
    } else {
        spec_order(turn).filter(open_pred(turn, state)).len() as int
    }
}

/// Ring cells the day still owes a wall: the debt, counting cells a unit's
/// body hides from the work list.
pub fn ring_open_cells(turn: &Turn, state: &BotState) -> (n: usize)
    requires
        turn.wf(),
    ensures
        n == spec_ring_open_cells(turn, state),
{
    if turn.station().is_none() {
        return 0;
    }
    let walls = turn.wall_positions();
    let order = base_layout::wall_build_order(turn);
    let ghost pred = open_pred(turn, state);
    let ghost mut acc: Seq<Pos> = Seq::empty();
    let mut n: usize = 0;
    let mut i: usize = 0;
    while i < order.len()
        invariant
            i <= order@.len(),
            walls@ == wall_pos_list(turn.ours@),
            pred == open_pred(turn, state),
            acc == order@.take(i as int).filter(pred),
            n == acc.len(),
            n <= i,
        decreases order@.len() - i,
    {
        proof {
            crate::model::lemma_filter_step(order@, i as int, pred);
        }
        let p = order[i];
        if turn.is_land(p) && !contains_pos(&walls, p) && !state.blacklisted(p, UnitKind::Wall) {
            n += 1;
            proof { acc = acc.push(p); }
        }
        i += 1;
    }
    assert(order@.take(order@.len() as int) =~= order@);
    n
}

pub open spec fn pending_pred(turn: &Turn, state: &BotState, ignore: Pos) -> spec_fn(Pos) -> bool {
    |p: Pos| p != ignore && turn.spec_is_land(p) && !wall_pos_list(turn.ours@).contains(p)
        && !state.spec_blacklisted(p, UnitKind::Wall)
}

/// Ring cells still to be filled, ignoring whether a teammate happens to stand
/// on one, and ignoring the cell `ignore`.
pub fn pending_ring(turn: &Turn, state: &BotState, ignore: Pos) -> (r: Vec<Pos>)
    requires
        turn.wf(),
    ensures
        r@ == spec_order(turn).filter(pending_pred(turn, state, ignore)),
{
    let walls = turn.wall_positions();
    let order = base_layout::wall_build_order(turn);
    let ghost pred = pending_pred(turn, state, ignore);
    let mut out: Vec<Pos> = Vec::new();
    let mut i: usize = 0;
    while i < order.len()
        invariant
            i <= order@.len(),
            walls@ == wall_pos_list(turn.ours@),
            pred == pending_pred(turn, state, ignore),
            out@ == order@.take(i as int).filter(pred),
        decreases order@.len() - i,
    {
        proof {
            crate::model::lemma_filter_step(order@, i as int, pred);
        }
        let p = order[i];
        if p != ignore && turn.is_land(p) && !contains_pos(&walls, p) && !state.blacklisted(p, UnitKind::Wall) {
            out.push(p);
        }
        i += 1;
    }
    assert(order@.take(order@.len() as int) =~= order@);
    out
}

pub open spec fn spec_wall_layer(turn: &Turn, site: Pos) -> int {
    match turn.spec_station() {
        Some(station) => fp_dist(site, station.spec_footprint()),
        None => 0,
    }
}

/// Which wall layer a cell belongs to: its footprint distance from the
/// station (2 is the ring that holds the night, 3 the second layer).
pub fn wall_layer(turn: &Turn, site: Pos) -> (layer: i64)
    requires
        turn.wf(),
        pos_ok(site),
    ensures
        layer == spec_wall_layer(turn, site),
{
    proof {
        base_layout::lemma_station_wf(turn);
    }
    match turn.station() {
        Some(station) => {
            let fp = station.footprint();
            footprint_distance(site, &fp) as i64
        },
        None => 0,
    }
}

pub open spec fn spec_stone_batch(day: i64, gaps: int) -> int {
    let want: int = if day == 1 { RING_BATCH as int } else { STONE_BATCH as int };
    let m = if want < gaps { want } else { gaps };
    if m < 1 { 1 } else { m }
}

/// Stones to carry before walking out to the wall line: the whole ring's
/// demand on day 1, a batch of six later, never more than the gaps and never
/// less than one.
pub fn stone_batch(turn: &Turn, gaps: usize) -> (n: i64)
    ensures
        n == spec_stone_batch(turn.day, gaps as int),
{
    let want: i64 = if turn.day == 1 { RING_BATCH } else { STONE_BATCH };
    let m: i64 = if (gaps as u64) < (want as u64) { gaps as i64 } else { want };
    if m < 1 { 1 } else { m }
}


// ---------------------------------------------------------------------------
// Wall safety: reachability of every role's night home
// ---------------------------------------------------------------------------

pub open spec fn spec_can_reach(turn: &Turn, start: Pos, stands: Seq<Pos>) -> bool {
    stands.contains(start) || (in_grid(turn, start) && reaches(turn, spec_blocked_for(turn, -1i64), start, stands))
}

/// Is there a walkable route from `start` to any of `stands`? A role already
/// on a stand counts as reachable.
pub fn can_reach(turn: &Turn, start: Pos, stands: &[Pos]) -> (r: bool)
    requires
        turn.wf(),
    ensures
        r == spec_can_reach(turn, start, stands@),
{
    if contains_pos(stands, start) {
        return true;
    }
    let blocked = turn.blocked_for(-1);
    let found = step_toward_stands(turn, start, stands, &blocked);
    proof {
        if found is Some {
            crate::path::lemma_step_reaches(turn, blocked@, start, stands@, found->0);
        }
    }
    found.is_some()
}

/// The night home of the wall worker is the operator cell; everybody else's is
/// the inside of the ring.
pub open spec fn spec_night_home(turn: &Turn, roles: Roles, id: i64) -> Seq<Pos> {
    if roles.wall_worker == Some(id) {
        match base_layout::spec_fp_min(turn) {
            Some(_) => seq![base_layout::spec_lay(turn, base_layout::operator_offsets())[0]],
            None => Seq::empty(),
        }
    } else {
        crate::brain::spec_interior_cells(turn)
    }
}

/// Where a role has to be able to get before the ring closes around it.
pub fn night_home(turn: &Turn, roles: &Roles, role_id: i64) -> (home: Vec<Pos>)
    requires
        turn.wf(),
    ensures
        home@ == spec_night_home(turn, *roles, role_id),
{
    if roles.wall_worker == Some(role_id) {
        match base_layout::operator_cell(turn) {
            Some(p) => {
                let v = vec![p];
                assert(v@ =~= seq![p]);
                v
            },
            None => Vec::new(),
        }
    } else {
        crate::brain::interior_cells(turn)
    }
}

/// Every role's night home under the role roster, aligned with `ours`.
pub open spec fn spec_homes_by_role(turn: &Turn) -> Seq<Seq<Pos>> {
    Seq::new(turn.ours@.len(), |i: int| spec_night_home(turn, spec_roles(turn), turn.ours@[i].id))
}

/// A live worker or pioneer that has a home and cannot reach it.
pub open spec fn cut_off(turn: &Turn, u: Unit, home: Seq<Pos>) -> bool {
    is_controllable(u) && home.len() > 0 && !spec_can_reach(turn, u.pos, home)
}

pub open spec fn spec_all_can_reach(turn: &Turn, homes: Seq<Seq<Pos>>) -> bool {
    forall|i: int| 0 <= i < turn.ours@.len() ==> !cut_off(turn, #[trigger] turn.ours@[i], homes[i])
}

/// Every controllable role can still reach its home (`homes[i]` belongs to
/// `ours[i]`).
pub fn all_can_reach(turn: &Turn, homes: &Vec<Vec<Pos>>) -> (r: bool)
    requires
        turn.wf(),
        homes@.len() == turn.ours@.len(),
    ensures
        r == spec_all_can_reach(turn, homes@.map_values(|h: Vec<Pos>| h@)),
{
    let ghost hs = homes@.map_values(|h: Vec<Pos>| h@);
    let mut i: usize = 0;
    while i < turn.ours.len()
        invariant
            i <= turn.ours@.len(),
            turn.wf(),
            homes@.len() == turn.ours@.len(),
            hs == homes@.map_values(|h: Vec<Pos>| h@),
            forall|j: int| 0 <= j < i ==> !cut_off(turn, #[trigger] turn.ours@[j], hs[j]),
        decreases turn.ours@.len() - i,
    {
        let u = &turn.ours[i];
        if (u.kind == UnitKind::Worker || u.kind == UnitKind::Pioneer) && u.health > 0 {
            let home = &homes[i];
            if home.len() > 0 && !can_reach(turn, u.pos, home) {
                assert(cut_off(turn, turn.ours@[i as int], hs[i as int]));
                return false;
            }
        }
        i += 1;
    }
    true
}

/// The homes of every unit of ours under the role roster.
pub fn homes_by_role(turn: &Turn) -> (homes: Vec<Vec<Pos>>)
    requires
        turn.wf(),
    ensures
        homes@.map_values(|h: Vec<Pos>| h@) == spec_homes_by_role(turn),
        homes@.len() == turn.ours@.len(),
{
    let roles = Roles::of(turn);
    let mut out: Vec<Vec<Pos>> = Vec::new();
    let mut i: usize = 0;
    while i < turn.ours.len()
        invariant
            i <= turn.ours@.len(),
            turn.wf(),
            roles == spec_roles(turn),
            out@.len() == i,
            forall|j: int| 0 <= j < i ==> (#[trigger] out@[j])@ == spec_night_home(turn, roles, turn.ours@[j].id),
        decreases turn.ours@.len() - i,
    {
        let h = night_home(turn, &roles, turn.ours[i].id);
        out.push(h);
        i += 1;
    }
    assert(out@.map_values(|h: Vec<Pos>| h@) =~= spec_homes_by_role(turn));
    out
}

/// Every controllable role must still be able to reach its night post — the
/// operator cell for the wall worker, the inside of the ring for everybody
/// else. If any can't, wall building must stop.
pub fn roles_can_reach(turn: &Turn) -> (r: bool)
    requires
        turn.wf(),
    ensures
        r == spec_all_can_reach(turn, spec_homes_by_role(turn)),
{
    let homes = homes_by_role(turn);
    all_can_reach(turn, &homes)
}

/// The blocked cells with one more wall at `site`.
pub open spec fn with_site(turn: &Turn, site: Pos) -> Seq<Pos> {
    spec_blocked_for(turn, -1i64).push(site)
}

/// A role this wall would cut off from its home: not dispatched outside on
/// purpose, not already home, able to get home now, and unable to once the
/// wall stands.
pub open spec fn trapped_by(turn: &Turn, owned: Seq<i64>, site: Pos, u: Unit, home: Seq<Pos>) -> bool {
    &&& is_controllable(u)
    &&& !owned.contains(u.id)
    &&& home.len() > 0
    &&& !home.contains(u.pos)
    &&& (home.contains(u.pos) || (in_grid(turn, u.pos) && reaches(turn, spec_blocked_for(turn, u.id), u.pos, home)))
    &&& !(in_grid(turn, u.pos) && reaches(turn, with_site(turn, site), u.pos, home))
}

/// `u` can build at `gap`: it stands next to it, or can walk to a cell next
/// to it.
pub open spec fn can_build(turn: &Turn, u: Unit, gap: Pos, b: Seq<Pos>) -> bool {
    cheb(u.pos, gap) == 1
        || (in_grid(turn, u.pos) && reaches(turn, b, u.pos, spec_neighbours(gap).filter(crate::brain::land_pred(turn))))
}

pub open spec fn some_builder(turn: &Turn, owned: Seq<i64>, gap: Pos, b: Seq<Pos>) -> bool {
    exists|i: int| 0 <= i < turn.ours@.len() && is_controllable(#[trigger] turn.ours@[i])
        && !owned.contains(turn.ours@[i].id) && can_build(turn, turn.ours@[i], gap, b)
}

/// A gap somebody could reach before the wall and nobody can after it.
pub open spec fn gap_cut(turn: &Turn, owned: Seq<i64>, site: Pos, gap: Pos) -> bool {
    some_builder(turn, owned, gap, spec_blocked_for(turn, -1i64)) && !some_builder(turn, owned, gap, with_site(turn, site))
}

pub open spec fn spec_would_trap(turn: &Turn, state: &BotState, site: Pos, owned: Seq<i64>, homes: Seq<Seq<Pos>>) -> bool {
    (exists|i: int| 0 <= i < turn.ours@.len() && trapped_by(turn, owned, site, #[trigger] turn.ours@[i], homes[i]))
    || (exists|g: int| 0 <= g < spec_order(turn).filter(pending_pred(turn, state, site)).len()
        && gap_cut(turn, owned, site, #[trigger] spec_order(turn).filter(pending_pred(turn, state, site))[g]))
}

fn contains_id(s: &[i64], id: i64) -> (r: bool)
    ensures
        r == s@.contains(id),
{
    let mut i: usize = 0;
    while i < s.len()
        invariant
            i <= s@.len(),
            forall|j: int| 0 <= j < i ==> s@[j] != id,
        decreases s@.len() - i,
    {
        if s[i] == id {
            assert(s@[i as int] == id);
            return true;
        }
        i += 1;
    }
    false
}

/// Does some controllable role outside `owned` reach a cell next to `gap`
/// through `blocked`?
fn builder_exists(turn: &Turn, owned: &[i64], gap: Pos, blocked: &Vec<Pos>) -> (r: bool)
    requires
        turn.wf(),
        crate::model::pos_inner(gap),
    ensures
        r == some_builder(turn, owned@, gap, blocked@),
{
    let stands = crate::brain::stand_cells(turn, gap);
    let mut i: usize = 0;
    while i < turn.ours.len()
        invariant
            i <= turn.ours@.len(),
            turn.wf(),
            crate::model::pos_inner(gap),
            stands@ == spec_neighbours(gap).filter(crate::brain::land_pred(turn)),
            forall|j: int| 0 <= j < i ==> !(is_controllable(#[trigger] turn.ours@[j])
                && !owned@.contains(turn.ours@[j].id) && can_build(turn, turn.ours@[j], gap, blocked@)),
        decreases turn.ours@.len() - i,
    {
        let u = &turn.ours[i];
        assert(u.wf());
        if (u.kind == UnitKind::Worker || u.kind == UnitKind::Pioneer) && u.health > 0 && !contains_id(owned, u.id) {
            if chebyshev(u.pos, gap) == 1 {
                return true;
            }
            let found = step_toward_stands(turn, u.pos, &stands, blocked);
            if found.is_some() {
                proof {
                    crate::path::lemma_step_reaches(turn, blocked@, u.pos, stands@, found->0);
                }
                return true;
            }
        }
        i += 1;
    }
    false
}

/// The core of the trap veto, with each role's home given alongside `ours`.
pub fn would_trap_with(turn: &Turn, state: &BotState, site: Pos, owned: &[i64], homes: &Vec<Vec<Pos>>) -> (r: bool)
    requires
        turn.wf(),
        homes@.len() == turn.ours@.len(),
    ensures
        r == spec_would_trap(turn, state, site, owned@, homes@.map_values(|h: Vec<Pos>| h@)),
{
    let ghost hs = homes@.map_values(|h: Vec<Pos>| h@);
    let mut blocked = turn.blocked_for(-1);
    blocked.push(site);
    let mut i: usize = 0;
    while i < turn.ours.len()
        invariant
            i <= turn.ours@.len(),
            turn.wf(),
            homes@.len() == turn.ours@.len(),
            hs == homes@.map_values(|h: Vec<Pos>| h@),
            blocked@ == with_site(turn, site),
            forall|j: int| 0 <= j < i ==> !trapped_by(turn, owned@, site, #[trigger] turn.ours@[j], hs[j]),
        decreases turn.ours@.len() - i,
    {
        let u = &turn.ours[i];
        if (u.kind == UnitKind::Worker || u.kind == UnitKind::Pioneer) && u.health > 0 && !contains_id(owned, u.id) {
            let home = &homes[i];
            assert(home@ == hs[i as int]);
            if home.len() > 0 && !contains_pos(home, u.pos) && crate::brain::can_reach_any(turn, u, home) {
                let found = step_toward_stands(turn, u.pos, home, &blocked);
                if found.is_none() {
                    assert(trapped_by(turn, owned@, site, turn.ours@[i as int], hs[i as int]));
                    return true;
                } else {
                    proof {
                        crate::path::lemma_step_reaches(turn, blocked@, u.pos, home@, found->0);
                    }
                }
            }
        }
        i += 1;
    }
    let before = turn.blocked_for(-1);
    let pending = pending_ring(turn, state, site);
    proof {
        lemma_order_inner(turn);
        lemma_filter_subset(spec_order(turn), pending_pred(turn, state, site));
        assert forall|k: int| 0 <= k < pending@.len() implies crate::model::pos_inner(#[trigger] pending@[k]) by {
            let j = choose|j: int| 0 <= j < spec_order(turn).len() && spec_order(turn)[j] == pending@[k];
        }
    }
    let mut g: usize = 0;
    while g < pending.len()
        invariant
            g <= pending@.len(),
            turn.wf(),
            pending@ == spec_order(turn).filter(pending_pred(turn, state, site)),
            forall|k: int| 0 <= k < pending@.len() ==> crate::model::pos_inner(#[trigger] pending@[k]),
            blocked@ == with_site(turn, site),
            before@ == spec_blocked_for(turn, -1i64),
            forall|k: int| 0 <= k < g ==> !gap_cut(turn, owned@, site, #[trigger] pending@[k]),
        decreases pending@.len() - g,
    {
        let gap = pending[g];
        if builder_exists(turn, owned, gap, &before) && !builder_exists(turn, owned, gap, &blocked) {
            assert(gap_cut(turn, owned@, site, pending@[g as int]));
            return true;
        }
        g += 1;
    }
    false
}

/// Cells of the build order stay inside the map's coordinate range.
pub proof fn lemma_order_inner(turn: &Turn)
    requires
        turn.wf(),
    ensures
        forall|k: int| 0 <= k < spec_order(turn).len() ==> crate::model::pos_inner(#[trigger] spec_order(turn)[k]),
{
    base_layout::lemma_station_wf(turn);
}

/// Everything a filter keeps comes from the filtered sequence.
pub proof fn lemma_filter_subset<A>(s: Seq<A>, pred: spec_fn(A) -> bool)
    ensures
        forall|k: int| 0 <= k < s.filter(pred).len() ==> s.contains(#[trigger] s.filter(pred)[k]),
    decreases s.len(),
{
    reveal_with_fuel(Seq::filter, 1);
    if s.len() > 0 {
        let d = s.drop_last();
        lemma_filter_subset(d, pred);
        assert forall|k: int| 0 <= k < s.filter(pred).len() implies s.contains(#[trigger] s.filter(pred)[k]) by {
            if k < d.filter(pred).len() {
                assert(s.filter(pred)[k] == d.filter(pred)[k]);
                let j = choose|j: int| 0 <= j < d.len() && d[j] == d.filter(pred)[k];
                assert(s[j] == d[j]);
            } else {
                assert(s.filter(pred)[k] == s.last());
                assert(s[s.len() - 1] == s.last());
            }
        }
    }
}

/// Would placing a wall at `site` cut any role off from its night post, or
/// seal a gap the ring still has to fill away from every worker who could
/// fill it? Units in `owned` are outside on purpose and never veto.
pub fn wall_would_trap(turn: &Turn, state: &BotState, site: Pos, owned: &[i64]) -> (r: bool)
    requires
        turn.wf(),
    ensures
        r == spec_would_trap(turn, state, site, owned@, spec_homes_by_role(turn)),
{
    let homes = homes_by_role(turn);
    would_trap_with(turn, state, site, owned, &homes)
}

// ---------------------------------------------------------------------------
// The second layer on the damaged arc
// ---------------------------------------------------------------------------

/// Every live tower of `s` has reached level 2.
pub open spec fn towers_upgraded(s: Seq<Unit>) -> bool {
    forall|i: int| 0 <= i < s.len() && crate::model::is_live_tower(#[trigger] s[i]) ==> s[i].level >= 2
}

/// The first place `sec` holds in the threat ranking.
pub open spec fn sector_rank(sectors: Seq<u8>, sec: u8) -> Option<int>
    decreases sectors.len(),
{
    if sectors.len() == 0 {
        None
    } else {
        match sector_rank(sectors.drop_last(), sec) {
            Some(r) => Some(r),
            None => if sectors.last() == sec { Some(sectors.len() - 1) } else { None },
        }
    }
}

/// A second-layer cell: a work-list cell (land, no wall, nobody on it,
/// never refused) clear of the entrance's mouth by more than two cells.
pub open spec fn layer_pred(turn: &Turn, state: &BotState, entrance: Seq<Pos>) -> spec_fn(Pos) -> bool {
    |p: Pos| gap_pred(turn, state)(p)
        && forall|k: int| 0 <= k < entrance.len() ==> cheb(p, #[trigger] entrance[k]) > SECOND_LAYER_ENTRANCE_CLEARANCE
}

pub open spec fn rank_is(sectors: Seq<u8>, center: Pos, r: int) -> spec_fn(Pos) -> bool {
    |p: Pos| sector_rank(sectors, crate::state::spec_arc_sector(center, p)) == Some(r)
}

/// The cells ordered by the rank of their sector, the ring's own (x, y)
/// order within a rank; cells of unranked sectors dropped.
pub open spec fn by_rank(cells: Seq<Pos>, sectors: Seq<u8>, center: Pos, n: int) -> Seq<Pos>
    decreases n,
{
    if n <= 0 { Seq::empty() } else { by_rank(cells, sectors, center, n - 1) + cells.filter(rank_is(sectors, center, n - 1)) }
}

pub open spec fn first_n(s: Seq<Pos>, n: int) -> Seq<Pos> {
    if s.len() <= n { s } else { s.take(n) }
}

pub open spec fn spec_second_layer_gaps(turn: &Turn, state: &BotState) -> Seq<Pos> {
    let sectors = state.threatened@;
    if turn.day < SECOND_LAYER_MIN_DAY || crate::model::tower_count(turn.ours@) < 3 || !towers_upgraded(turn.ours@)
        || sectors.len() == 0 {
        Seq::empty()
    } else {
        match turn.spec_station() {
            None => Seq::empty(),
            Some(st) => {
                let entrance = base_layout::spec_lay(turn, base_layout::entrance_offsets());
                let cells = spec_ring_cells(crate::model::spec_station_footprint(st.pos), 3)
                    .filter(layer_pred(turn, state, entrance));
                first_n(by_rank(cells, sectors, st.pos, sectors.len() as int), SECOND_LAYER_BATCH as int)
            },
        }
    }
}

fn towers_all_upgraded(turn: &Turn) -> (r: bool)
    ensures
        r == towers_upgraded(turn.ours@),
{
    let mut i: usize = 0;
    while i < turn.ours.len()
        invariant
            i <= turn.ours@.len(),
            forall|k: int| 0 <= k < i && crate::model::is_live_tower(#[trigger] turn.ours@[k]) ==> turn.ours@[k].level >= 2,
        decreases turn.ours@.len() - i,
    {
        let u = &turn.ours[i];
        if u.kind.is_tower() && u.health > 0 && u.level < 2 {
            return false;
        }
        i += 1;
    }
    true
}

fn rank_of_sector(sectors: &Vec<u8>, sec: u8) -> (r: Option<usize>)
    ensures
        match r {
            Some(i) => sector_rank(sectors@, sec) == Some(i as int),
            None => sector_rank(sectors@, sec) is None,
        },
{
    let mut i: usize = 0;
    while i < sectors.len()
        invariant
            i <= sectors@.len(),
            sector_rank(sectors@.take(i as int), sec) is None,
        decreases sectors@.len() - i,
    {
        assert(sectors@.take(i as int + 1).drop_last() =~= sectors@.take(i as int));
        if sectors[i] == sec {
            proof {
                lemma_rank_prefix(sectors@, i as int + 1, sec);
            }
            return Some(i);
        }
        i += 1;
    }
    assert(sectors@.take(sectors@.len() as int) =~= sectors@);
    None
}

proof fn lemma_rank_prefix(s: Seq<u8>, k: int, sec: u8)
    requires
        0 <= k <= s.len(),
        sector_rank(s.take(k), sec) is Some,
    ensures
        sector_rank(s, sec) == sector_rank(s.take(k), sec),
    decreases s.len() - k,
{
    if k < s.len() {
        assert(s.take(k + 1).drop_last() =~= s.take(k));
        lemma_rank_prefix(s, k + 1, sec);
    } else {
        assert(s.take(k) =~= s);
    }
}

fn clear_of_entrance(p: Pos, entrance: &Vec<Pos>) -> (r: bool)
    requires
        pos_ok(p),
        all_pos_ok(entrance@),
    ensures
        r == forall|k: int| 0 <= k < entrance@.len() ==> cheb(p, #[trigger] entrance@[k]) > SECOND_LAYER_ENTRANCE_CLEARANCE,
{
    let mut i: usize = 0;
    while i < entrance.len()
        invariant
            i <= entrance@.len(),
            pos_ok(p),
            all_pos_ok(entrance@),
            forall|k: int| 0 <= k < i ==> cheb(p, #[trigger] entrance@[k]) > SECOND_LAYER_ENTRANCE_CLEARANCE,
        decreases entrance@.len() - i,
    {
        if chebyshev(p, entrance[i]) <= SECOND_LAYER_ENTRANCE_CLEARANCE {
            return false;
        }
        i += 1;
    }
    true
}

/// The second wall layer: ring-3 cells on the arc the robots demonstrably
/// came through, at most four a day, ranked by how hard their sector was
/// hit. Only from day two, once three towers stand and every one has reached
/// level 2, and never without threat evidence; the entrance's mouth stays
/// open at every layer.
pub fn second_layer_gaps(turn: &Turn, state: &BotState) -> (gaps: Vec<Pos>)
    requires
        turn.wf(),
        state.wf(),
    ensures
        gaps@ == spec_second_layer_gaps(turn, state),
{
    if turn.day < SECOND_LAYER_MIN_DAY || turn.towers_len() < 3 || !towers_all_upgraded(turn) {
        return Vec::new();
    }
    let sectors = state.threatened_sectors();
    if sectors.len() == 0 {
        return Vec::new();
    }
    proof {
        base_layout::lemma_station_wf(turn);
    }
    let center = match turn.station() {
        Some(st) => st.pos,
        None => return Vec::new(),
    };
    proof {
        crate::brain::lemma_station_cells_within(center);
    }
    let fp = crate::model::station_footprint(center);
    let ring = ring_cells(&fp, 3);
    proof {
        lemma_ring_cells_ok(fp@, 3);
    }
    let entrance = base_layout::entrance_cells(turn);
    let walls = turn.wall_positions();
    let occupied = turn.occupied_cells();
    let ghost entrance_v = entrance@;
    let ghost pred = layer_pred(turn, state, entrance_v);
    let mut cells: Vec<Pos> = Vec::new();
    let mut i: usize = 0;
    while i < ring.len()
        invariant
            i <= ring@.len(),
            all_pos_ok(ring@),
            all_pos_ok(entrance@),
            entrance@ == entrance_v,
            walls@ == wall_pos_list(turn.ours@),
            occupied@ == all_unit_cells(turn.ours@),
            pred == layer_pred(turn, state, entrance_v),
            cells@ == ring@.take(i as int).filter(pred),
        decreases ring@.len() - i,
    {
        proof {
            crate::model::lemma_filter_step(ring@, i as int, pred);
        }
        let p = ring[i];
        if turn.is_land(p) && !contains_pos(&walls, p) && !contains_pos(&occupied, p)
            && !state.blacklisted(p, UnitKind::Wall) && clear_of_entrance(p, &entrance) {
            cells.push(p);
        }
        i += 1;
    }
    assert(ring@.take(ring@.len() as int) =~= ring@);
    let mut out: Vec<Pos> = Vec::new();
    let mut r: usize = 0;
    while r < sectors.len()
        invariant
            r <= sectors@.len(),
            sectors@ == state.threatened@,
            sectors@.len() <= 8,
            out@ == by_rank(cells@, sectors@, center, r as int),
        decreases sectors@.len() - r,
    {
        let ghost pr = rank_is(sectors@, center, r as int);
        let ghost before = out@;
        let mut j: usize = 0;
        while j < cells.len()
            invariant
                j <= cells@.len(),
                pr == rank_is(sectors@, center, r as int),
                out@ == before + cells@.take(j as int).filter(pr),
            decreases cells@.len() - j,
        {
            proof {
                crate::model::lemma_filter_step(cells@, j as int, pr);
            }
            let sec = crate::state::arc_sector(center, cells[j]);
            match rank_of_sector(sectors, sec) {
                Some(k) => {
                    if k == r {
                        out.push(cells[j]);
                    }
                },
                None => {},
            }
            assert(out@ =~= before + cells@.take(j as int + 1).filter(pr));
            j += 1;
        }
        assert(cells@.take(cells@.len() as int) =~= cells@);
        r += 1;
    }
    if out.len() > SECOND_LAYER_BATCH {
        out.truncate(SECOND_LAYER_BATCH);
    }
    assert(out@ =~= first_n(by_rank(cells@, sectors@, center, sectors@.len() as int), SECOND_LAYER_BATCH as int));
    out
}

pub open spec fn spec_wall_gaps(turn: &Turn, state: &BotState) -> Seq<Pos> {
    let owed = spec_primary_wall_gaps(turn, state);
    if owed.len() > 0 { owed } else { spec_second_layer_gaps(turn, state) }
}

/// Everything `by_rank` lists comes from `cells`.
proof fn lemma_by_rank_subset(cells: Seq<Pos>, sectors: Seq<u8>, center: Pos, n: int)
    ensures
        forall|k: int| 0 <= k < by_rank(cells, sectors, center, n).len()
            ==> cells.contains(#[trigger] by_rank(cells, sectors, center, n)[k]),
    decreases n,
{
    if n > 0 {
        lemma_by_rank_subset(cells, sectors, center, n - 1);
        let a = by_rank(cells, sectors, center, n - 1);
        let b = cells.filter(rank_is(sectors, center, n - 1));
        lemma_filter_subset(cells, rank_is(sectors, center, n - 1));
        assert forall|k: int| 0 <= k < (a + b).len() implies cells.contains(#[trigger] (a + b)[k]) by {
            if k < a.len() {
                assert((a + b)[k] == a[k]);
            } else {
                assert((a + b)[k] == b[k - a.len()]);
            }
        }
    }
}

/// Every owed wall cell lies well inside the coordinate range.
pub proof fn lemma_wall_gaps_inner(turn: &Turn, state: &BotState)
    requires
        turn.wf(),
    ensures
        forall|k: int| 0 <= k < spec_wall_gaps(turn, state).len()
            ==> crate::model::pos_inner(#[trigger] spec_wall_gaps(turn, state)[k]),
{
    lemma_order_inner(turn);
    lemma_filter_subset(spec_order(turn), gap_pred(turn, state));
    base_layout::lemma_station_wf(turn);
    let g = spec_wall_gaps(turn, state);
    if spec_primary_wall_gaps(turn, state).len() == 0 {
        match turn.spec_station() {
            None => {},
            Some(st) => {
                let sectors = state.threatened@;
                let fp = crate::model::spec_station_footprint(st.pos);
                crate::brain::lemma_station_cells_within(st.pos);
                lemma_bounds_within(fp);
                lemma_ring_grid_sorted(fp, 3, min_x(fp) - 3, max_x(fp) + 3 + 1, min_y(fp) - 3, max_y(fp) + 3);
                let entrance = base_layout::spec_lay(turn, base_layout::entrance_offsets());
                let ring = spec_ring_cells(fp, 3);
                let cells = ring.filter(layer_pred(turn, state, entrance));
                lemma_filter_subset(ring, layer_pred(turn, state, entrance));
                lemma_by_rank_subset(cells, sectors, st.pos, sectors.len() as int);
                let ranked = by_rank(cells, sectors, st.pos, sectors.len() as int);
                assert forall|k: int| 0 <= k < g.len() implies crate::model::pos_inner(#[trigger] g[k]) by {
                    if g.len() > 0 {
                        assert(g[k] == ranked[k]);
                        assert(cells.contains(ranked[k]));
                        let j = choose|j: int| 0 <= j < cells.len() && cells[j] == ranked[k];
                        assert(ring.contains(cells[j]));
                    }
                }
            },
        }
    } else {
        assert forall|k: int| 0 <= k < g.len() implies crate::model::pos_inner(#[trigger] g[k]) by {
            assert(spec_order(turn).contains(g[k]));
        }
    }
}

/// Every wall cell still owed, in the one order the day builds them: the
/// primary ring's gaps while any remain, then the second layer on the
/// damaged arc.
pub fn wall_gaps(turn: &Turn, state: &BotState) -> (gaps: Vec<Pos>)
    requires
        turn.wf(),
        state.wf(),
    ensures
        gaps@ == spec_wall_gaps(turn, state),
{
    let owed = primary_wall_gaps(turn, state);
    if owed.len() > 0 {
        return owed;
    }
    second_layer_gaps(turn, state)
}

pub open spec fn spec_stone_demand(turn: &Turn, state: &BotState) -> int {
    let gaps = spec_wall_gaps(turn, state).len() as int;
    let cap = spec_wall_daily_cap(turn.day, state.ring_ever_complete, spec_ring_open_cells(turn, state) as usize) as int;
    if gaps < cap { gaps } else { cap }
}

/// The stone the day still owes: the wall gaps inside today's budget.
pub fn stone_demand_of(turn: &Turn, state: &BotState) -> (n: i64)
    requires
        turn.wf(),
        state.wf(),
    ensures
        n == spec_stone_demand(turn, state),
        0 <= n <= D1_WALL_CAP,
{
    let gaps = wall_gaps(turn, state);
    let primary_open = ring_open_cells(turn, state);
    let cap = wall_daily_cap(turn.day, state.ring_ever_complete, primary_open);
    if (gaps.len() as u64) < (cap as u64) { gaps.len() as i64 } else { cap }
}

} // verus!
