//! The base's fixed layout: the L-shaped weapon nest around one operator cell
//! and the one-direction wall order with its permanent entrance.
//!
//! Everything here is a pure function of the station and the map. Offsets are
//! relative to the station footprint's min corner; a bottom-right base is the
//! top-left layout mirrored point-wise through the footprint's centre,
//! `(dx, dy) → (1 - dx, 1 - dy)`.

use vstd::prelude::*;
use crate::model::{Pos, Turn, Unit, pos_inner, units_wf, lemma_first_station};

verus! {

/// Which map corner our station occupies.
#[derive(Clone, Copy, Debug, PartialEq, Eq, Structural)]
pub enum BaseCorner {
    /// Our base is the top-left one; the enemy is toward the map centre.
    TopLeft,
    /// Our base is the bottom-right one; every offset is point-mirrored.
    BottomRight,
}

pub open spec fn spec_base_corner(turn: &Turn) -> BaseCorner {
    match turn.spec_station() {
        Some(station) => if station.pos.x * 2 >= turn.width { BaseCorner::BottomRight } else { BaseCorner::TopLeft },
        None => BaseCorner::TopLeft,
    }
}

/// The corner our station occupies: the half of the map its x sits in; a
/// station exactly on the centre line counts as top-left.
pub fn base_corner(turn: &Turn) -> (c: BaseCorner)
    requires
        turn.wf(),
    ensures
        c == spec_base_corner(turn),
{
    proof {
        lemma_first_station(turn.ours@);
    }
    match turn.station() {
        Some(station) => {
            assert(station.wf());
            if station.pos.x * 2 >= turn.width {
                BaseCorner::BottomRight
            } else {
                BaseCorner::TopLeft
            }
        },
        None => BaseCorner::TopLeft,
    }
}

/// The station footprint's min corner `(x, y - 1)`.
pub open spec fn spec_fp_min(turn: &Turn) -> Option<Pos> {
    match turn.spec_station() {
        Some(station) => Some(Pos { x: station.pos.x, y: (station.pos.y - 1) as i32 }),
        None => None,
    }
}

/// Our live station is a well-formed unit.
pub proof fn lemma_station_wf(turn: &Turn)
    requires
        turn.wf(),
    ensures
        turn.spec_station() matches Some(s) ==> s.wf(),
{
    lemma_first_station(turn.ours@);
}

/// The station footprint's min corner `(min x, min y)` — the anchor every
/// layout offset is relative to.
pub fn fp_min(turn: &Turn) -> (r: Option<Pos>)
    requires
        turn.wf(),
    ensures
        r == spec_fp_min(turn),
{
    proof {
        lemma_station_wf(turn);
    }
    match turn.station() {
        Some(station) => Some(Pos { x: station.pos.x, y: station.pos.y - 1 }),
        None => None,
    }
}

/// One offset laid on the board.
pub open spec fn lay_one(min: Pos, mirrored: bool, off: (i32, i32)) -> Pos {
    if mirrored {
        Pos { x: (min.x + 1 - off.0) as i32, y: (min.y + 1 - off.1) as i32 }
    } else {
        Pos { x: (min.x + off.0) as i32, y: (min.y + off.1) as i32 }
    }
}

/// Footprint-relative offsets laid out on the board, mirrored for a
/// bottom-right base; empty without a station.
pub open spec fn spec_lay(turn: &Turn, offsets: Seq<(i32, i32)>) -> Seq<Pos> {
    match spec_fp_min(turn) {
        Some(min) => Seq::new(
            offsets.len(),
            |i: int| lay_one(min, spec_base_corner(turn) == BaseCorner::BottomRight, offsets[i]),
        ),
        None => Seq::empty(),
    }
}

pub open spec fn small_offsets(offsets: Seq<(i32, i32)>) -> bool {
    forall|i: int| 0 <= i < offsets.len() ==> -4 <= (#[trigger] offsets[i]).0 <= 4 && -4 <= offsets[i].1 <= 4
}

/// Lay footprint-relative offsets out on the board.
fn lay(turn: &Turn, offsets: &[(i32, i32)]) -> (r: Vec<Pos>)
    requires
        turn.wf(),
        small_offsets(offsets@),
    ensures
        r@ == spec_lay(turn, offsets@),
        forall|k: int| 0 <= k < r@.len() ==> pos_inner(#[trigger] r@[k]),
{
    proof {
        lemma_station_wf(turn);
    }
    let min = match fp_min(turn) {
        Some(min) => min,
        None => {
            return Vec::new();
        },
    };
    proof {
        let st = turn.spec_station()->0;
        assert(st.wf());
        assert(pos_inner(st.pos));
        assert(spec_fp_min(turn) == Some(Pos { x: st.pos.x, y: (st.pos.y - 1) as i32 }));
        assert(min.x == st.pos.x);
        assert(min.y == st.pos.y - 1);
    }
    let mirrored = base_corner(turn) == BaseCorner::BottomRight;
    let mut out: Vec<Pos> = Vec::new();
    let mut i: usize = 0;
    while i < offsets.len()
        invariant
            i <= offsets@.len(),
            small_offsets(offsets@),
            -999_993 <= min.x <= 999_993,
            -999_993 <= min.y <= 999_993,
            spec_fp_min(turn) == Some(min),
            mirrored == (spec_base_corner(turn) == BaseCorner::BottomRight),
            out@.len() == i,
            forall|k: int| 0 <= k < i ==> out@[k] == lay_one(min, mirrored, #[trigger] offsets@[k]),
            forall|k: int| 0 <= k < i ==> pos_inner(#[trigger] out@[k]),
        decreases offsets@.len() - i,
    {
        let (dx, dy) = offsets[i];
        assert(-4 <= offsets@[i as int].0 <= 4 && -4 <= offsets@[i as int].1 <= 4);
        let p = if mirrored {
            Pos { x: min.x + 1 - dx, y: min.y + 1 - dy }
        } else {
            Pos { x: min.x + dx, y: min.y + dy }
        };
        out.push(p);
        i += 1;
    }
    assert(out@ =~= spec_lay(turn, offsets@));
    out
}

pub open spec fn weapon_offsets() -> Seq<(i32, i32)> {
    seq![(-1i32, -1i32), (0i32, -1i32), (-1i32, 1i32)]
}

pub open spec fn operator_offsets() -> Seq<(i32, i32)> {
    seq![(-1i32, 0i32)]
}

pub open spec fn front_offsets() -> Seq<(i32, i32)> {
    seq![(3i32, -2i32), (3i32, -1i32), (3i32, 0i32), (3i32, 1i32), (3i32, 2i32), (3i32, 3i32)]
}

pub open spec fn side_offsets() -> Seq<(i32, i32)> {
    seq![
        (2i32, 3i32), (1i32, 3i32), (0i32, 3i32), (-1i32, 3i32), (-2i32, 3i32),
        (-2i32, -2i32), (-1i32, -2i32), (0i32, -2i32), (1i32, -2i32), (2i32, -2i32),
    ]
}

pub open spec fn entrance_offsets() -> Seq<(i32, i32)> {
    seq![(-2i32, -1i32), (-2i32, 0i32), (-2i32, 1i32), (-2i32, 2i32)]
}

/// The wall order: the enemy-facing front column, then the top row walking
/// back, then the bottom row walking out.
pub open spec fn order_offsets() -> Seq<(i32, i32)> {
    front_offsets() + side_offsets()
}

/// The three weapon sites of the L, in build order.
pub fn weapon_sites(turn: &Turn) -> (r: Vec<Pos>)
    requires
        turn.wf(),
    ensures
        forall|k: int| 0 <= k < r@.len() ==> pos_inner(#[trigger] r@[k]),
        r@ == spec_lay(turn, weapon_offsets()),
{
    let offs = [(-1i32, -1i32), (0i32, -1i32), (-1i32, 1i32)];
    assert(offs@ =~= weapon_offsets());
    lay(turn, &offs)
}

pub open spec fn spec_operator_cell(turn: &Turn) -> Option<Pos> {
    match spec_fp_min(turn) {
        Some(_) => Some(spec_lay(turn, operator_offsets())[0]),
        None => None,
    }
}

/// The cell the weapon operator stands on at night: the L's inner corner.
pub fn operator_cell(turn: &Turn) -> (r: Option<Pos>)
    requires
        turn.wf(),
    ensures
        r == spec_operator_cell(turn),
        r matches Some(p) ==> pos_inner(p),
{
    let offs = [(-1i32, 0i32)];
    assert(offs@ =~= operator_offsets());
    let mut cells = lay(turn, &offs);
    proof {
        if cells@.len() > 0 {
            assert(pos_inner(cells@[0]));
        }
    }
    cells.pop()
}

/// The wall build order: 16 of the ring's 20 cells, front column first, then
/// the top row, then the bottom row. The entrance is never in it.
pub fn wall_build_order(turn: &Turn) -> (r: Vec<Pos>)
    requires
        turn.wf(),
    ensures
        r@ == spec_lay(turn, order_offsets()),
{
    let offs = [
        (3i32, -2i32), (3i32, -1i32), (3i32, 0i32), (3i32, 1i32), (3i32, 2i32), (3i32, 3i32),
        (2i32, 3i32), (1i32, 3i32), (0i32, 3i32), (-1i32, 3i32), (-2i32, 3i32),
        (-2i32, -2i32), (-1i32, -2i32), (0i32, -2i32), (1i32, -2i32), (2i32, -2i32),
    ];
    assert(offs@ =~= order_offsets());
    lay(turn, &offs)
}

/// The permanent entrance: the four back-column cells that are never built on.
pub fn entrance_cells(turn: &Turn) -> (r: Vec<Pos>)
    requires
        turn.wf(),
    ensures
        forall|k: int| 0 <= k < r@.len() ==> pos_inner(#[trigger] r@[k]),
        r@ == spec_lay(turn, entrance_offsets()),
{
    let offs = [(-2i32, -1i32), (-2i32, 0i32), (-2i32, 1i32), (-2i32, 2i32)];
    assert(offs@ =~= entrance_offsets());
    lay(turn, &offs)
}

/// The enemy-facing front column of the ring.
pub fn front_wall_cells(turn: &Turn) -> (r: Vec<Pos>)
    requires
        turn.wf(),
    ensures
        r@ == spec_lay(turn, front_offsets()),
{
    let offs = [(3i32, -2i32), (3i32, -1i32), (3i32, 0i32), (3i32, 1i32), (3i32, 2i32), (3i32, 3i32)];
    assert(offs@ =~= front_offsets());
    lay(turn, &offs)
}

/// The top and bottom rows, laid after the front column.
pub fn side_wall_cells(turn: &Turn) -> (r: Vec<Pos>)
    requires
        turn.wf(),
    ensures
        r@ == spec_lay(turn, side_offsets()),
{
    let offs = [
        (2i32, 3i32), (1i32, 3i32), (0i32, 3i32), (-1i32, 3i32), (-2i32, 3i32),
        (-2i32, -2i32), (-1i32, -2i32), (0i32, -2i32), (1i32, -2i32), (2i32, -2i32),
    ];
    assert(offs@ =~= side_offsets());
    lay(turn, &offs)
}

} // verus!
