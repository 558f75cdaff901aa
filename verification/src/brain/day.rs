//! Daytime wall safety keyed by the night's controller pairing: each role's
//! home is the operating cells of the tower it mans tonight, or the inside of
//! the ring when it has no gun to man.

use vstd::prelude::*;
use crate::model::{Pos, Turn, Unit, UnitKind, cheb, chebyshev, pos_ok, pos_inner, fp_dist, footprint_distance,
    is_live_tower, wall_pos_list};
use crate::brain::action::geometry::{spec_wall_gaps, wall_gaps, lemma_wall_gaps_inner, spec_ring_open_cells,
    ring_open_cells, spec_wall_daily_cap, wall_daily_cap};
use crate::brain::action::tower_site::{spec_tower_gaps, tower_gaps};
use crate::state::BotState;
use crate::brain::action::geometry::{spec_all_can_reach, all_can_reach, spec_would_trap, would_trap_with};
use crate::brain::{reroute_idle, spec_interior_cells, interior_cells, spec_tower_stand_cells, tower_stand_cells, reroute_result,
    walk_or_remove_wall};
use crate::protocol::RoleCommand;
use crate::model::all_pos_ok;

use crate::brain::economy::DUSK_ROUND;

verus! {

/// The tower the first pairing of `role_id` hands it.
pub open spec fn paired_tower(pairs: Seq<(i64, i64)>, role_id: i64) -> Option<i64>
    decreases pairs.len(),
{
    if pairs.len() == 0 {
        None
    } else if pairs[0].0 == role_id {
        Some(pairs[0].1)
    } else {
        paired_tower(pairs.drop_first(), role_id)
    }
}

/// Index of the first unit of `s` with this id.
pub open spec fn first_with_id(s: Seq<Unit>, id: i64) -> Option<int> {
    if exists|i: int| 0 <= i < s.len() && s[i].id == id && forall|j: int| 0 <= j < i ==> s[j].id != id {
        Some(choose|i: int| 0 <= i < s.len() && s[i].id == id && forall|j: int| 0 <= j < i ==> s[j].id != id)
    } else {
        None
    }
}

pub open spec fn spec_night_goal(turn: &Turn, pairs: Seq<(i64, i64)>, role_id: i64) -> Option<Seq<Pos>> {
    match paired_tower(pairs, role_id) {
        None => None,
        Some(tower_id) => match first_with_id(turn.ours@, tower_id) {
            None => None,
            Some(i) => Some(spec_tower_stand_cells(turn, turn.ours@[i].pos)),
        },
    }
}

fn pair_lookup(pairs: &[(i64, i64)], role_id: i64) -> (r: Option<i64>)
    ensures
        r == paired_tower(pairs@, role_id),
{
    let mut i: usize = 0;
    assert(pairs@.skip(0) =~= pairs@);
    while i < pairs.len()
        invariant
            i <= pairs@.len(),
            paired_tower(pairs@, role_id) == paired_tower(pairs@.skip(i as int), role_id),
        decreases pairs@.len() - i,
    {
        assert(pairs@.skip(i as int).drop_first() =~= pairs@.skip(i as int + 1));
        assert(pairs@.skip(i as int)[0] == pairs@[i as int]);
        if pairs[i].0 == role_id {
            return Some(pairs[i].1);
        }
        i += 1;
    }
    None
}

/// Stand cells of the tower a role is paired with for the coming night.
pub fn night_goal(turn: &Turn, pairs: &[(i64, i64)], role_id: i64) -> (r: Option<Vec<Pos>>)
    requires
        turn.wf(),
    ensures
        match r {
            Some(v) => spec_night_goal(turn, pairs@, role_id) == Some(v@),
            None => spec_night_goal(turn, pairs@, role_id) is None,
        },
{
    let tower_id = match pair_lookup(pairs, role_id) {
        Some(t) => t,
        None => return None,
    };
    let tower = match turn.role_by_id(tower_id) {
        Some(u) => u,
        None => {
            assert(first_with_id(turn.ours@, tower_id) is None);
            return None;
        },
    };
    let ghost k = choose|i: int| 0 <= i < turn.ours@.len() && turn.ours@[i] == *tower
        && forall|j: int| 0 <= j < i ==> turn.ours@[j].id != tower_id;
    proof {
        assert(turn.ours@[k].id == tower_id);
        let f = first_with_id(turn.ours@, tower_id);
        assert(f is Some);
        let c = f->0;
        if c < k {
            assert(turn.ours@[c].id != tower_id);
        }
        if k < c {
            assert(turn.ours@[k].id != tower_id);
        }
        assert(c == k);
        assert(turn.ours@[k].wf());
    }
    Some(tower_stand_cells(turn, tower.pos))
}

pub open spec fn spec_night_home(turn: &Turn, pairs: Seq<(i64, i64)>, role_id: i64) -> Seq<Pos> {
    match spec_night_goal(turn, pairs, role_id) {
        Some(g) => g,
        None => spec_interior_cells(turn),
    }
}

/// Where a role has to be able to get before the ring closes around it: the
/// operating cells of the tower it mans tonight, or — with no gun to man —
/// the inside of the ring.
pub fn night_home(turn: &Turn, pairs: &[(i64, i64)], role_id: i64) -> (home: Vec<Pos>)
    requires
        turn.wf(),
    ensures
        home@ == spec_night_home(turn, pairs@, role_id),
{
    match night_goal(turn, pairs, role_id) {
        Some(g) => g,
        None => interior_cells(turn),
    }
}

pub open spec fn spec_homes(turn: &Turn, pairs: Seq<(i64, i64)>) -> Seq<Seq<Pos>> {
    Seq::new(turn.ours@.len(), |i: int| spec_night_home(turn, pairs, turn.ours@[i].id))
}

fn homes(turn: &Turn, pairs: &[(i64, i64)]) -> (hs: Vec<Vec<Pos>>)
    requires
        turn.wf(),
    ensures
        hs@.map_values(|h: Vec<Pos>| h@) == spec_homes(turn, pairs@),
        hs@.len() == turn.ours@.len(),
{
    let mut out: Vec<Vec<Pos>> = Vec::new();
    let mut i: usize = 0;
    while i < turn.ours.len()
        invariant
            i <= turn.ours@.len(),
            turn.wf(),
            out@.len() == i,
            forall|j: int| 0 <= j < i ==> (#[trigger] out@[j])@ == spec_night_home(turn, pairs@, turn.ours@[j].id),
        decreases turn.ours@.len() - i,
    {
        let h = night_home(turn, pairs, turn.ours[i].id);
        out.push(h);
        i += 1;
    }
    assert(out@.map_values(|h: Vec<Pos>| h@) =~= spec_homes(turn, pairs@));
    out
}

/// Every controllable role must still be able to reach its night post — its
/// gun, or the inside of the ring when it has none. If any can't, wall
/// building must stop.
pub fn roles_can_reach(turn: &Turn, pairs: &[(i64, i64)]) -> (r: bool)
    requires
        turn.wf(),
    ensures
        r == spec_all_can_reach(turn, spec_homes(turn, pairs@)),
{
    let hs = homes(turn, pairs);
    all_can_reach(turn, &hs)
}

/// Would placing a wall at `site` cut any role off from its night post, or
/// seal a gap of the ring away from every worker who could fill it?
pub fn wall_would_trap(turn: &Turn, pairs: &[(i64, i64)], state: &BotState, site: Pos, owned: &[i64]) -> (r: bool)
    requires
        turn.wf(),
    ensures
        r == spec_would_trap(turn, state, site, owned@, spec_homes(turn, pairs@)),
{
    let hs = homes(turn, pairs);
    would_trap_with(turn, state, site, owned, &hs)
}

/// Distance from `p` to the nearest of `gaps`, 0 when there are none.
pub open spec fn nearest_gap(p: Pos, gaps: Seq<Pos>) -> int
    decreases gaps.len(),
{
    if gaps.len() == 0 {
        0
    } else if gaps.len() == 1 {
        cheb(p, gaps[0])
    } else {
        let rest = nearest_gap(p, gaps.drop_last());
        let d = cheb(p, gaps.last());
        if d < rest { d } else { rest }
    }
}

pub open spec fn spec_wall_trip_overdue(in_day_round: int, home: int) -> bool {
    in_day_round + home + 1 + crate::brain::action::geometry::WALL_TRIP_SLACK
        >= DUSK_ROUND + crate::brain::action::geometry::SEAL_GRACE
}

/// Has the vein stopped paying for the walk home? True once the walk to the
/// nearest gap, plus slack, no longer fits before dusk and the seal grace.
pub fn wall_trip_overdue(turn: &Turn, role: &Unit, gaps: &[Pos]) -> (r: bool)
    requires
        turn.wf(),
        role.wf(),
        crate::model::all_pos_ok(gaps@),
    ensures
        r == spec_wall_trip_overdue(turn.in_day_round as int, nearest_gap(role.pos, gaps@)),
{
    let mut home: i64 = 0;
    let mut i: usize = 0;
    while i < gaps.len()
        invariant
            i <= gaps@.len(),
            role.wf(),
            crate::model::all_pos_ok(gaps@),
            home == nearest_gap(role.pos, gaps@.take(i as int)),
            0 <= home <= 4_000_000,
        decreases gaps@.len() - i,
    {
        assert(gaps@.take(i as int + 1).drop_last() =~= gaps@.take(i as int));
        assert(gaps@.take(i as int + 1).last() == gaps@[i as int]);
        assert(crate::model::pos_ok(gaps@[i as int]));
        let d = chebyshev(role.pos, gaps[i]) as i64;
        if i == 0 || d < home {
            home = d;
        }
        i += 1;
    }
    assert(gaps@.take(gaps@.len() as int) =~= gaps@);
    turn.in_day_round + home + 1 + crate::brain::action::geometry::WALL_TRIP_SLACK
        >= DUSK_ROUND + crate::brain::action::geometry::SEAL_GRACE
}

/// Walk home (or cut our way in) honouring the cells teammates claimed;
/// failing that, try again ignoring the claims.
pub fn walk_home_or_reroute(turn: &Turn, role: &Unit, stands: &[Pos], claimed: &mut Vec<Pos>) -> (r: Option<RoleCommand>)
    requires
        turn.wf(),
        role.wf(),
        all_pos_ok(stands@),
    ensures
        stands@.contains(role.pos) ==> r is None && final(claimed)@ == old(claimed)@,
        !stands@.contains(role.pos) ==> reroute_result(turn, *role, stands@, old(claimed)@, final(claimed)@, r)
            || (final(claimed)@ == old(claimed)@ && r is Some
                && exists|c1: Seq<Pos>| #[trigger] reroute_result(turn, *role, stands@, Seq::empty(), c1, r)),
        r is None ==> reroute_idle(turn, *role, stands@, old(claimed)@)
            && reroute_idle(turn, *role, stands@, Seq::empty()),
{
    let first = walk_or_remove_wall(turn, role, stands, claimed);
    if first.is_some() {
        return first;
    }
    let mut ignored: Vec<Pos> = Vec::new();
    let second = walk_or_remove_wall(turn, role, stands, &mut ignored);
    assert(reroute_result(turn, *role, stands@, Seq::empty(), ignored@, second));
    second
}

// ---------------------------------------------------------------------------
// The round context the wall worker reads
// ---------------------------------------------------------------------------

/// The round's shared reads for the wall worker: the empty tower slots, the
/// wall cells still owed in build order, the stone the day still owes and
/// the day's wall budget.
pub struct RoundCtx {
    pub tower_gaps: Vec<(Pos, UnitKind)>,
    pub wall_gaps: Vec<Pos>,
    pub stone_demand: i64,
    pub wall_cap: i64,
}

impl RoundCtx {
    pub open spec fn wf(&self) -> bool {
        &&& forall|k: int| 0 <= k < self.tower_gaps@.len() ==> pos_inner(#[trigger] self.tower_gaps@[k].0)
        &&& forall|k: int| 0 <= k < self.wall_gaps@.len() ==> pos_inner(#[trigger] self.wall_gaps@[k])
        &&& 0 <= self.stone_demand <= 1_000_000
        &&& 0 <= self.wall_cap <= 1_000_000
    }
}

/// The ring has been whole at least once: latched when no primary cell is
/// open and some wall stands.
pub open spec fn ring_latch(turn: &Turn, state: &BotState) -> bool {
    state.ring_ever_complete
        || (spec_ring_open_cells(turn, state) == 0 && wall_pos_list(turn.ours@).len() > 0)
}

/// Compute the round context, latching `ring_ever_complete` once the primary
/// ring is closed with walls standing. The stone demand is the owed gaps,
/// capped by the day's wall budget.
pub fn round_context(turn: &Turn, state: &mut BotState) -> (ctx: RoundCtx)
    requires
        turn.wf(),
        old(state).wf(),
    ensures
        *final(state) == (BotState { ring_ever_complete: ring_latch(turn, old(state)), ..*old(state) }),
        final(state).wf(),
        ctx.wf(),
        ctx.tower_gaps@ == spec_tower_gaps(turn, old(state)),
        ctx.wall_gaps@ == spec_wall_gaps(turn, old(state)),
        ctx.wall_cap == spec_wall_daily_cap(turn.day, ring_latch(turn, old(state)), spec_ring_open_cells(turn, old(state)) as usize),
        ctx.stone_demand == (if spec_wall_gaps(turn, old(state)).len() < ctx.wall_cap {
            spec_wall_gaps(turn, old(state)).len() as int
        } else {
            ctx.wall_cap as int
        }),
{
    proof {
        lemma_wall_gaps_inner(turn, old(state));
    }
    let tower_gaps = tower_gaps(turn, state);
    let wall_gaps = wall_gaps(turn, state);
    let primary_open = ring_open_cells(turn, state);
    if primary_open == 0 && turn.wall_positions().len() > 0 {
        state.ring_ever_complete = true;
    }
    let wall_cap = wall_daily_cap(turn.day, state.ring_ever_complete, primary_open);
    let stone_demand: i64 = if wall_gaps.len() < wall_cap as usize { wall_gaps.len() as i64 } else { wall_cap };
    RoundCtx { tower_gaps, wall_gaps, stone_demand, wall_cap }
}

// ---------------------------------------------------------------------------
// The backstop
// ---------------------------------------------------------------------------

/// Some live tower of ours stands next to `p`.
pub open spec fn beside_tower(turn: &Turn, p: Pos) -> bool {
    exists|i: int| 0 <= i < turn.ours@.len() && is_live_tower(#[trigger] turn.ours@[i]) && cheb(p, turn.ours@[i].pos) <= 1
}

fn is_beside_tower(turn: &Turn, p: Pos) -> (r: bool)
    requires
        turn.wf(),
        pos_ok(p),
    ensures
        r == beside_tower(turn, p),
{
    let mut i: usize = 0;
    while i < turn.ours.len()
        invariant
            i <= turn.ours@.len(),
            turn.wf(),
            pos_ok(p),
            forall|k: int| 0 <= k < i ==> !(is_live_tower(#[trigger] turn.ours@[k]) && cheb(p, turn.ours@[k].pos) <= 1),
        decreases turn.ours@.len() - i,
    {
        let u = &turn.ours[i];
        assert(u.wf());
        if u.kind.is_tower() && u.health > 0 && chebyshev(p, u.pos) <= 1 {
            return true;
        }
        i += 1;
    }
    false
}

/// Where the backstop leaves a role standing: no station, already beside
/// the footprint, on a gun's post, or no interior cell to walk to.
pub open spec fn backstop_holds(turn: &Turn, role: Unit) -> bool {
    match turn.spec_station() {
        None => true,
        Some(st) => fp_dist(role.pos, st.spec_footprint()) <= 1 || beside_tower(turn, role.pos)
            || spec_interior_cells(turn).len() == 0,
    }
}

/// The last walk for a role no step commanded: close on the station, down
/// our own wall when that is the only way home, or reroute through a
/// teammate's claimed cell. Claims are ignored: a reservation is never a
/// reason to stand still.
pub fn fallback_toward_station(turn: &Turn, role: &Unit) -> (r: Option<RoleCommand>)
    requires
        turn.wf(),
        role.wf(),
    ensures
        backstop_holds(turn, *role) ==> r is None,
        !backstop_holds(turn, *role) ==> (spec_interior_cells(turn).contains(role.pos) && r is None)
            || (exists|c1: Seq<Pos>| #[trigger] reroute_result(turn, *role, spec_interior_cells(turn), Seq::empty(), c1, r)),
        !backstop_holds(turn, *role) && r is None ==> reroute_idle(turn, *role, spec_interior_cells(turn), Seq::empty()),
{
    proof {
        crate::brain::action::base_layout::lemma_station_wf(turn);
    }
    let station = match turn.station() {
        Some(s) => s,
        None => return None,
    };
    let fp = station.footprint();
    if footprint_distance(role.pos, &fp) <= 1 {
        return None;
    }
    if is_beside_tower(turn, role.pos) {
        return None;
    }
    let stands = interior_cells(turn);
    if stands.len() == 0 {
        return None;
    }
    let mut ignored: Vec<Pos> = Vec::new();
    let r = walk_home_or_reroute(turn, role, &stands, &mut ignored);
    proof {
        if !stands@.contains(role.pos) {
            if reroute_result(turn, *role, stands@, Seq::empty(), ignored@, r) {
                assert(exists|c1: Seq<Pos>| #[trigger] reroute_result(turn, *role, stands@, Seq::empty(), c1, r));
            }
        }
    }
    r
}

} // verus!
