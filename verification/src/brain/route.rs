//! Walk pricing around the ring: how many rounds a walk costs when a role
//! starts inside a shell that is mostly stone.

use vstd::prelude::*;
use crate::model::{Pos, Turn, cheb, chebyshev, fp_dist, pos_ok, all_pos_ok, wall_pos_list,
    spec_station_footprint, station_footprint, footprint_distance, contains_pos, lemma_filter_step};
use crate::brain::action::geometry::{spec_ring_cells, xy_sorted, xy_lt};

verus! {

pub open spec fn spec_route_ring(turn: &Turn, radius: int) -> Seq<Pos> {
    match turn.spec_station() {
        None => Seq::empty(),
        Some(st) => if radius < 0 { Seq::empty() } else { spec_ring_cells(spec_station_footprint(st.pos), radius) },
    }
}

/// The ring shell around our station: every cell at footprint distance
/// exactly `radius`, in (x, y) order; nothing without a station.
pub fn ring_cells(turn: &Turn, radius: i32) -> (cells: Vec<Pos>)
    requires
        turn.wf(),
        radius <= 5,
    ensures
        cells@ == spec_route_ring(turn, radius as int),
        xy_sorted(cells@),
        all_pos_ok(cells@),
{
    proof {
        crate::brain::action::base_layout::lemma_station_wf(turn);
    }
    let station = match turn.station() {
        Some(s) => s,
        None => return Vec::new(),
    };
    if radius < 0 {
        return Vec::new();
    }
    proof {
        crate::brain::lemma_station_cells_within(station.pos);
    }
    let fp = station_footprint(station.pos);
    let cells = crate::brain::action::geometry::ring_cells(&fp, radius);
    proof {
        crate::brain::action::geometry::lemma_ring_cells_ok(fp@, radius as int);
    }
    cells
}

/// Land and no wall of ours on it.
pub open spec fn open_pred(turn: &Turn) -> spec_fn(Pos) -> bool {
    |p: Pos| turn.spec_is_land(p) && !wall_pos_list(turn.ours@).contains(p)
}

proof fn lemma_filter_sorted(s: Seq<Pos>, pred: spec_fn(Pos) -> bool)
    requires
        xy_sorted(s),
    ensures
        xy_sorted(s.filter(pred)),
        forall|k: int| 0 <= k < s.filter(pred).len() ==> s.contains(#[trigger] s.filter(pred)[k]),
    decreases s.len(),
{
    reveal_with_fuel(Seq::filter, 1);
    if s.len() > 0 {
        let d = s.drop_last();
        assert(xy_sorted(d)) by {
            assert forall|i: int, j: int| 0 <= i < j < d.len() implies xy_lt(#[trigger] d[i], #[trigger] d[j]) by {
                assert(d[i] == s[i] && d[j] == s[j]);
            }
        }
        lemma_filter_sorted(d, pred);
        let f = s.filter(pred);
        let fd = d.filter(pred);
        assert forall|k: int| 0 <= k < f.len() implies s.contains(#[trigger] f[k]) by {
            if k < fd.len() {
                assert(f[k] == fd[k]);
                let j = choose|j: int| 0 <= j < d.len() && d[j] == fd[k];
                assert(s[j] == d[j]);
            } else {
                assert(f[k] == s.last());
                assert(s[s.len() - 1] == s.last());
            }
        }
        if pred(s.last()) {
            assert forall|i: int, j: int| 0 <= i < j < f.len() implies xy_lt(#[trigger] f[i], #[trigger] f[j]) by {
                if j < fd.len() {
                    assert(f[i] == fd[i] && f[j] == fd[j]);
                } else {
                    assert(f[i] == fd[i]);
                    assert(f[j] == s.last());
                    let q = choose|q: int| 0 <= q < d.len() && d[q] == fd[i];
                    assert(s[q] == d[q]);
                    assert(xy_lt(s[q], s[s.len() - 1]));
                }
            }
        } else {
            assert(f =~= fd);
        }
    }
}

/// The shell cells a role can walk through right now: ring cells that are
/// land and carry no wall of ours, in (x, y) order.
pub fn open_ring_cells(turn: &Turn, radius: i32) -> (cells: Vec<Pos>)
    requires
        turn.wf(),
        radius <= 5,
    ensures
        cells@ == spec_route_ring(turn, radius as int).filter(open_pred(turn)),
        xy_sorted(cells@),
        all_pos_ok(cells@),
{
    let ring = ring_cells(turn, radius);
    let walls = turn.wall_positions();
    let ghost pred = open_pred(turn);
    let mut out: Vec<Pos> = Vec::new();
    let mut i: usize = 0;
    while i < ring.len()
        invariant
            i <= ring@.len(),
            pred == open_pred(turn),
            walls@ == wall_pos_list(turn.ours@),
            all_pos_ok(ring@),
            out@ == ring@.take(i as int).filter(pred),
        decreases ring@.len() - i,
    {
        proof {
            lemma_filter_step(ring@, i as int, pred);
        }
        let p = ring[i];
        if turn.is_land(p) && !contains_pos(&walls, p) {
            out.push(p);
        }
        i += 1;
    }
    assert(ring@.take(ring@.len() as int) =~= ring@);
    proof {
        lemma_filter_sorted(ring@, pred);
        assert forall|k: int| 0 <= k < out@.len() implies pos_ok(#[trigger] out@[k]) by {
            let j = choose|j: int| 0 <= j < ring@.len() && ring@[j] == out@[k];
        }
    }
    out
}

/// Walk through the cheapest of `gaps`: `from` to a gap, one step through
/// it, then on to `to`.
pub open spec fn via_gaps(from: Pos, to: Pos, gaps: Seq<Pos>) -> int
    decreases gaps.len(),
{
    if gaps.len() == 0 {
        i64::MAX as int
    } else {
        let rest = via_gaps(from, to, gaps.drop_last());
        let here = cheb(from, gaps.last()) + 1 + cheb(gaps.last(), to);
        if here < rest { here } else { rest }
    }
}

pub open spec fn spec_trip_rounds(turn: &Turn, from: Pos, to: Pos) -> int {
    match turn.spec_station() {
        None => cheb(from, to),
        Some(st) => {
            if fp_dist(from, spec_station_footprint(st.pos)) > 1 {
                cheb(from, to)
            } else {
                let openings = spec_route_ring(turn, 2).filter(open_pred(turn));
                if openings.len() == 0 { cheb(from, to) } else { via_gaps(from, to, openings) }
            }
        },
    }
}

/// Rounds to walk from `from` to `to`, priced through the ring: a role
/// outside the wall line (or with no station, or no opening) walks the
/// straight line; one inside leaves through the opening that makes the walk
/// cheapest.
pub fn trip_rounds(turn: &Turn, from: Pos, to: Pos) -> (n: i64)
    requires
        turn.wf(),
        pos_ok(from),
        pos_ok(to),
    ensures
        n == spec_trip_rounds(turn, from, to),
        0 <= n <= 4_000_001,
{
    proof {
        crate::brain::action::base_layout::lemma_station_wf(turn);
    }
    let station = match turn.station() {
        Some(s) => s,
        None => return chebyshev(from, to) as i64,
    };
    let fp = station_footprint(station.pos);
    if footprint_distance(from, &fp) > 1 {
        return chebyshev(from, to) as i64;
    }
    let openings = open_ring_cells(turn, 2);
    if openings.len() == 0 {
        return chebyshev(from, to) as i64;
    }
    let mut best: i64 = i64::MAX;
    let mut i: usize = 0;
    while i < openings.len()
        invariant
            i <= openings@.len(),
            pos_ok(from),
            pos_ok(to),
            all_pos_ok(openings@),
            best == via_gaps(from, to, openings@.take(i as int)),
            i > 0 ==> 0 <= best <= 4_000_001,
        decreases openings@.len() - i,
    {
        assert(openings@.take(i as int + 1).drop_last() =~= openings@.take(i as int));
        assert(openings@.take(i as int + 1).last() == openings@[i as int]);
        let g = openings[i];
        let here = chebyshev(from, g) as i64 + 1 + chebyshev(g, to) as i64;
        if here < best {
            best = here;
        }
        i += 1;
    }
    assert(openings@.take(openings@.len() as int) =~= openings@);
    best
}

} // verus!
