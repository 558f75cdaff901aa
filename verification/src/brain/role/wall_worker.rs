//! The wall worker (A): builds and mans the three weapons, lays the day's
//! wall quota in the fixed order, repairs breaches, and spends only the
//! rounds those duties leave on surplus ore and selling. Every deadline is
//! measured against A's own walk to the operator cell, the one post beside
//! all three weapon sites.

use vstd::prelude::*;
use crate::brain::distinct_ids;
use crate::model::{Pos, Turn, Unit, UnitKind, Item, ZoneKind, cheb, chebyshev, pos_ok, pos_inner, all_pos_ok,
    zone_cells, spec_neighbours, mine_list};
use crate::protocol::RoleCommand;
use crate::state::{BotState, hits_in, bump, on_outage};
use crate::model::{contains_pos, is_live_tower};
use crate::brain::combat::{threat_sum, threat_load, robot_entries, unit_entries, init_sim, spec_spare_firepower,
    spare_firepower, spec_night_mend_target};
use crate::brain::combat::targeting::{spec_choose, choose_attack_kind_with, TargetKind};
use crate::brain::coach::{Coach, NightLedger, Policy};
use crate::brain::action::fight::{cooldown_repair, update_withdraw_holdout, holdout_fold, spec_withdrawing, withdrawing,
    spec_night_medicine, night_medicine, spec_hostile_wave, hostile_wave};
use crate::brain::night::{shelter, shelter_outcome};
use crate::brain::{interior_cells, walk_or_remove_wall, break_out, break_out_result};
use crate::brain::{walk_toward, walk_result, stand_cells, land_pred, Plan, plan_pushed, has_command, reroute_result,
    spec_interior_cells};
use crate::brain::day::{backstop_holds, fallback_toward_station};
use crate::brain::economy::{DUSK_ROUND, spec_travel, vendor_travel, spec_sellable_ores, sellable_ores, free_slots,
    spec_may_build_weapon, may_build_weapon, team_count, team_ores, lemma_zone_cells_inner, lemma_mine_list_inner};
use crate::brain::route::{spec_trip_rounds, trip_rounds};
use crate::brain::day::RoundCtx;
use crate::brain::action::base_layout::{spec_operator_cell, operator_cell};
use crate::brain::action::building::{build_or_walk, build_or_walk_result};
use crate::brain::action::geometry::{HARD_SEAL_ROUND, spec_would_trap, spec_homes_by_role, wall_would_trap};
use crate::brain::role::economy_worker::{SellTrigger, NEAR_VENDOR_ROUNDS, VEIN_COLLECT_LIMIT, max0, spec_pick_vein,
    pick_vein, NIGHT_ROBOT_CLEARANCE, spec_night_safe, night_safe, vein_trip};
use crate::brain::action::geometry::{spec_stone_demand, stone_demand_of};
use crate::brain::action::geometry::{spec_all_can_reach, roles_can_reach, spec_stone_batch, stone_batch};
use crate::brain::action::mine::{spec_stone_covered, stone_covered};
use crate::brain::day::{spec_wall_trip_overdue, wall_trip_overdue, nearest_gap};
use crate::brain::action::building::{repair_flow_result, repair_flow};
use crate::brain::action::sell::{sell_flow_result, sell_flow};
use crate::brain::action::shop::{spec_use_medicine, use_medicine, provision_result, self_provision, voucher_result,
    voucher_flow, burn_result, burn_summon_order};
use crate::brain::economy::{spec_discard_command, discard_command};

verus! {

/// Slack kept on top of A's walk to the operator cell before a deadline
/// counts as missed.
pub const POST_MARGIN: i64 = 3;

/// The rounds before the post deadline in which the dusk cash-out fires.
pub const CASHOUT_LEAD: i64 = 3;

pub open spec fn site_stands(turn: &Turn, site: Pos) -> Seq<Pos> {
    spec_neighbours(site).filter(land_pred(turn))
}

// ---------------------------------------------------------------------------
// Sell triggers
// ---------------------------------------------------------------------------

/// The shortest walk from any of `vs` to `to`.
pub open spec fn min_trip_from(turn: &Turn, vs: Seq<Pos>, to: Pos) -> Option<int>
    decreases vs.len(),
{
    if vs.len() == 0 {
        None
    } else {
        let t = spec_trip_rounds(turn, vs.last(), to);
        match min_trip_from(turn, vs.drop_last(), to) {
            None => Some(t),
            Some(m) => Some(if t < m { t } else { m }),
        }
    }
}

/// Inside the cash-out band: a sell trip via the nearest vendor still gets A
/// back to the post before dusk, with at most the lead to spare.
pub open spec fn spec_cashout(turn: &Turn, role: Unit) -> bool {
    match spec_operator_cell(turn) {
        None => false,
        Some(post) => match min_trip_from(turn, zone_cells(turn.zones@, ZoneKind::Vendor), post) {
            None => false,
            Some(m) => {
                let left = max0(DUSK_ROUND - turn.in_day_round);
                let via = spec_travel(turn, role.pos, zone_cells(turn.zones@, ZoneKind::Vendor)) + m;
                via + POST_MARGIN <= left && left - (via + POST_MARGIN) <= CASHOUT_LEAD
            },
        },
    }
}

pub open spec fn spec_free(role: Unit) -> int {
    if role.capacity - role.backpack@.len() > 0 { role.capacity - role.backpack@.len() } else { 0 }
}

/// A's sell triggers: the full pack, the buyer's deadline, the vendor near,
/// and the dusk cash-out.
pub open spec fn spec_sell_trigger(turn: &Turn, state: &BotState, role: Unit, stone_demand: int) -> Option<SellTrigger> {
    let travel = spec_travel(turn, role.pos, zone_cells(turn.zones@, ZoneKind::Vendor));
    if spec_free(role) <= 0 {
        Some(SellTrigger::BackpackFull)
    } else if spec_sellable_ores(turn, role, stone_demand) <= 0 {
        None
    } else if state.buy_deadline matches Some(d) && turn.round_no + travel >= d {
        Some(SellTrigger::BuyDeadline)
    } else if travel <= NEAR_VENDOR_ROUNDS {
        Some(SellTrigger::NearVendor)
    } else if spec_cashout(turn, role) {
        Some(SellTrigger::DuskCashout)
    } else {
        None
    }
}

fn min_trip_to(turn: &Turn, vs: &Vec<Pos>, to: Pos) -> (r: Option<i64>)
    requires
        turn.wf(),
        pos_ok(to),
        all_pos_ok(vs@),
    ensures
        match r {
            Some(m) => min_trip_from(turn, vs@, to) == Some(m as int) && 0 <= m <= 4_000_001,
            None => min_trip_from(turn, vs@, to) is None,
        },
{
    let mut best: Option<i64> = None;
    let mut i: usize = 0;
    while i < vs.len()
        invariant
            i <= vs@.len(),
            turn.wf(),
            pos_ok(to),
            all_pos_ok(vs@),
            match best {
                Some(m) => min_trip_from(turn, vs@.take(i as int), to) == Some(m as int) && 0 <= m <= 4_000_001,
                None => min_trip_from(turn, vs@.take(i as int), to) is None,
            },
        decreases vs@.len() - i,
    {
        assert(vs@.take(i as int + 1).drop_last() =~= vs@.take(i as int));
        assert(vs@.take(i as int + 1).last() == vs@[i as int]);
        let t = trip_rounds(turn, vs[i], to);
        best = match best {
            None => Some(t),
            Some(m) => Some(if t < m { t } else { m }),
        };
        i += 1;
    }
    assert(vs@.take(vs@.len() as int) =~= vs@);
    best
}

/// Why A sells this round, if it does.
pub fn sell_trigger(turn: &Turn, state: &BotState, role: &Unit, stone_demand: i64) -> (r: Option<SellTrigger>)
    requires
        turn.wf(),
        role.wf(),
        0 <= stone_demand <= 1_000_000,
    ensures
        r == spec_sell_trigger(turn, state, *role, stone_demand as int),
{
    if free_slots(role) <= 0 {
        return Some(SellTrigger::BackpackFull);
    }
    if sellable_ores(turn, role, stone_demand) <= 0 {
        return None;
    }
    let travel = vendor_travel(turn, role.pos);
    if let Some(deadline) = state.buy_deadline {
        if turn.round_no + travel >= deadline {
            return Some(SellTrigger::BuyDeadline);
        }
    }
    if travel <= NEAR_VENDOR_ROUNDS {
        return Some(SellTrigger::NearVendor);
    }
    if let Some(post) = operator_cell(turn) {
        proof {
            lemma_zone_cells_inner(turn.zones@, ZoneKind::Vendor);
        }
        let vendors = turn.vendors();
        if let Some(m) = min_trip_to(turn, &vendors, post) {
            let left: i64 = if DUSK_ROUND - turn.in_day_round > 0 { DUSK_ROUND - turn.in_day_round } else { 0 };
            let via = travel + m;
            if via + POST_MARGIN <= left && left - (via + POST_MARGIN) <= CASHOUT_LEAD {
                return Some(SellTrigger::DuskCashout);
            }
        }
    }
    None
}

// ---------------------------------------------------------------------------
// Towers
// ---------------------------------------------------------------------------

/// Walk the tower slots in order from `i`: skip a site claimed this round
/// (or, in the post form, one not buildable from where A stands); the first
/// site that builds or walks wins and is claimed.
pub open spec fn tower_try(turn: &Turn, role: Unit, gaps: Seq<(Pos, UnitKind)>, i: int, adjacent_only: bool,
    c0: Seq<Pos>, c1: Seq<Pos>, r: Option<RoleCommand>) -> bool
    decreases gaps.len() - i,
{
    if i < 0 || i >= gaps.len() {
        r is None && c1 == c0
    } else {
        let site = gaps[i].0;
        let kind = gaps[i].1;
        if c0.contains(site) || (adjacent_only && (cheb(role.pos, site) != 1 || !turn.spec_is_land(site))) {
            tower_try(turn, role, gaps, i + 1, adjacent_only, c0, c1, r)
        } else if cheb(role.pos, site) == 1 && turn.spec_is_land(site) {
            r == Some(RoleCommand::Build(site, kind)) && c1 == c0.push(site)
        } else {
            ||| (r is Some && c1.len() > 0 && c1.last() == site
                    && walk_result(turn, role, site_stands(turn, site), c0, c1.drop_last(), r))
            ||| (walk_result(turn, role, site_stands(turn, site), c0, c0, None)
                    && tower_try(turn, role, gaps, i + 1, adjacent_only, c0, c1, r))
        }
    }
}

pub open spec fn build_tower_result(turn: &Turn, role: Unit, gaps: Seq<(Pos, UnitKind)>, adjacent_only: bool,
    c0: Seq<Pos>, c1: Seq<Pos>, r: Option<RoleCommand>) -> bool {
    if !spec_may_build_weapon(turn) || turn.in_day_round >= DUSK_ROUND {
        r is None && c1 == c0
    } else {
        tower_try(turn, role, gaps, 0, adjacent_only, c0, c1, r)
    }
}

/// Build an empty weapon slot: walk to the first unclaimed site in slot
/// order, or (`adjacent_only`, at the post) build one beside A without
/// leaving.
pub fn build_tower(turn: &Turn, state: &BotState, role: &Unit, ctx: &RoundCtx, claimed: &mut Vec<Pos>,
    adjacent_only: bool) -> (r: Option<RoleCommand>)
    requires
        turn.wf(),
        role.wf(),
        ctx.wf(),
    ensures
        build_tower_result(turn, *role, ctx.tower_gaps@, adjacent_only, old(claimed)@, final(claimed)@, r),
        r is None ==> final(claimed)@ == old(claimed)@,
{
    if !may_build_weapon(turn, state) || turn.in_day_round >= DUSK_ROUND {
        return None;
    }
    let ghost c0 = claimed@;
    assert(c0 == old(claimed)@);
    let ghost gaps = ctx.tower_gaps@;
    let mut i: usize = 0;
    while i < ctx.tower_gaps.len()
        invariant
            i <= gaps.len(),
            gaps == ctx.tower_gaps@,
            turn.wf(),
            role.wf(),
            ctx.wf(),
            claimed@ == c0,
            c0 == old(claimed)@,
            spec_may_build_weapon(turn),
            turn.in_day_round < DUSK_ROUND,
            forall|c1: Seq<Pos>, r: Option<RoleCommand>|
                #[trigger] tower_try(turn, *role, gaps, i as int, adjacent_only, c0, c1, r)
                ==> tower_try(turn, *role, gaps, 0, adjacent_only, c0, c1, r),
        decreases gaps.len() - i,
    {
        let (site, kind) = ctx.tower_gaps[i];
        assert(pos_inner(gaps[i as int].0));
        if crate::model::contains_pos(claimed, site)
            || (adjacent_only && (chebyshev(role.pos, site) != 1 || !turn.is_land(site))) {
            assert forall|c1: Seq<Pos>, r: Option<RoleCommand>|
                #[trigger] tower_try(turn, *role, gaps, i as int + 1, adjacent_only, c0, c1, r)
                implies tower_try(turn, *role, gaps, 0, adjacent_only, c0, c1, r) by {
                assert(tower_try(turn, *role, gaps, i as int, adjacent_only, c0, c1, r));
            }
            i += 1;
            continue;
        }
        let res = build_or_walk(turn, role, site, kind, claimed);
        match res {
            Some(cmd) => {
                proof {
                    assert(build_or_walk_result(turn, *role, site, kind, c0, claimed@, Some(cmd)));
                }
                let ghost mid = claimed@;
                claimed.push(site);
                proof {
                    assert(claimed@.drop_last() =~= mid);
                    assert(tower_try(turn, *role, gaps, i as int, adjacent_only, c0, claimed@, Some(cmd)));
                    assert(tower_try(turn, *role, gaps, 0, adjacent_only, c0, claimed@, Some(cmd)));
                }
                return Some(cmd);
            },
            None => {
                assert forall|c1: Seq<Pos>, r: Option<RoleCommand>|
                    #[trigger] tower_try(turn, *role, gaps, i as int + 1, adjacent_only, c0, c1, r)
                    implies tower_try(turn, *role, gaps, 0, adjacent_only, c0, c1, r) by {
                    assert(tower_try(turn, *role, gaps, i as int, adjacent_only, c0, c1, r));
                }
            },
        }
        i += 1;
    }
    assert(tower_try(turn, *role, gaps, i as int, adjacent_only, c0, c0, None));
    None
}

// ---------------------------------------------------------------------------
// The wall quota
// ---------------------------------------------------------------------------

/// May this gap be closed now? The trap veto holds until the hard seal.
pub open spec fn spec_safe_gap(turn: &Turn, state: &BotState, owned: Seq<i64>, site: Pos) -> bool {
    !spec_would_trap(turn, state, site, owned, spec_homes_by_role(turn)) || turn.in_day_round >= HARD_SEAL_ROUND
}

pub fn safe_gap(turn: &Turn, state: &BotState, owned: &[i64], site: Pos) -> (r: bool)
    requires
        turn.wf(),
    ensures
        r == spec_safe_gap(turn, state, owned@, site),
{
    !wall_would_trap(turn, state, site, owned) || turn.in_day_round >= HARD_SEAL_ROUND
}

/// The day's tally after a wall at `site`: one more wall, and the cell
/// noted once.
pub open spec fn walled(s0: &BotState, s1: &BotState, site: Pos) -> bool {
    &&& *s1 == (BotState {
            walls_built_today: if s0.walls_built_today < i64::MAX { (s0.walls_built_today + 1) as i64 } else { s0.walls_built_today },
            walled_cells_today: s1.walled_cells_today,
            ..*s0
        })
    &&& s1.walled_cells_today@ == (if s0.walled_cells_today@.contains(site) { s0.walled_cells_today@ }
            else { s0.walled_cells_today@.push(site) })
}

fn note_wall(state: &mut BotState, site: Pos)
    requires
        old(state).wf(),
    ensures
        walled(old(state), final(state), site),
        final(state).wf(),
{
    if state.walls_built_today < i64::MAX {
        state.walls_built_today = state.walls_built_today + 1;
    }
    if !crate::model::contains_pos(&state.walled_cells_today, site) {
        state.walled_cells_today.push(site);
    }
}

/// The first gap of `gaps` from `i` on that is unclaimed, beside A and safe
/// to close.
pub open spec fn adjacent_gap(turn: &Turn, state: &BotState, owned: Seq<i64>, role: Unit, gaps: Seq<Pos>, i: int,
    claimed: Seq<Pos>) -> Option<Pos>
    decreases gaps.len() - i,
{
    if i < 0 || i >= gaps.len() {
        None
    } else {
        let g = gaps[i];
        if !claimed.contains(g) && cheb(role.pos, g) == 1 && spec_safe_gap(turn, state, owned, g) {
            Some(g)
        } else {
            adjacent_gap(turn, state, owned, role, gaps, i + 1, claimed)
        }
    }
}

pub open spec fn place_adjacent_result(turn: &Turn, s0: &BotState, s1: &BotState, role: Unit, gaps: Seq<Pos>,
    owned: Seq<i64>, c0: Seq<Pos>, c1: Seq<Pos>, r: Option<RoleCommand>) -> bool {
    let g = if role.spec_count(Item::Stone) == 0 { None } else { adjacent_gap(turn, s0, owned, role, gaps, 0, c0) };
    match g {
        None => r is None && c1 == c0 && *s1 == *s0,
        Some(g) => r == Some(RoleCommand::Build(g, UnitKind::Wall)) && c1 == c0.push(g) && walled(s0, s1, g),
    }
}

/// Lay a wall on a gap beside A this round, in the fixed order: the one-
/// command form of the wall step.
pub fn place_adjacent_wall(turn: &Turn, state: &mut BotState, role: &Unit, ctx: &RoundCtx, owned: &[i64],
    claimed: &mut Vec<Pos>) -> (r: Option<RoleCommand>)
    requires
        turn.wf(),
        role.wf(),
        ctx.wf(),
        old(state).wf(),
    ensures
        place_adjacent_result(turn, old(state), final(state), *role, ctx.wall_gaps@, owned@, old(claimed)@,
            final(claimed)@, r),
        final(state).wf(),
{
    if role.count_item(Item::Stone) == 0 {
        return None;
    }
    let ghost gaps = ctx.wall_gaps@;
    let mut i: usize = 0;
    while i < ctx.wall_gaps.len()
        invariant
            i <= gaps.len(),
            gaps == ctx.wall_gaps@,
            turn.wf(),
            role.wf(),
            ctx.wf(),
            *state == *old(state),
            old(state).wf(),
            role.spec_count(Item::Stone) != 0,
            claimed@ == old(claimed)@,
            adjacent_gap(turn, state, owned@, *role, gaps, i as int, claimed@)
                == adjacent_gap(turn, state, owned@, *role, gaps, 0, claimed@),
        decreases gaps.len() - i,
    {
        let g = ctx.wall_gaps[i];
        assert(pos_inner(gaps[i as int]));
        if !crate::model::contains_pos(claimed, g) && chebyshev(role.pos, g) == 1 && safe_gap(turn, state, owned, g) {
            claimed.push(g);
            note_wall(state, g);
            return Some(RoleCommand::Build(g, UnitKind::Wall));
        }
        i += 1;
    }
    None
}

/// Walk the wall line in order from `i`: skip a claimed or unsafe gap; the
/// first gap that builds (counted in the day's tally) or walks wins and is
/// claimed.
pub open spec fn line_try(turn: &Turn, s0: &BotState, s1: &BotState, role: Unit, gaps: Seq<Pos>, i: int,
    owned: Seq<i64>, c0: Seq<Pos>, c1: Seq<Pos>, r: Option<RoleCommand>) -> bool
    decreases gaps.len() - i,
{
    if i < 0 || i >= gaps.len() {
        r is None && c1 == c0 && *s1 == *s0
    } else {
        let site = gaps[i];
        if c0.contains(site) || !spec_safe_gap(turn, s0, owned, site) {
            line_try(turn, s0, s1, role, gaps, i + 1, owned, c0, c1, r)
        } else if cheb(role.pos, site) == 1 && turn.spec_is_land(site) {
            r == Some(RoleCommand::Build(site, UnitKind::Wall)) && c1 == c0.push(site) && walled(s0, s1, site)
        } else {
            ||| (r is Some && c1.len() > 0 && c1.last() == site && *s1 == *s0
                    && walk_result(turn, role, site_stands(turn, site), c0, c1.drop_last(), r))
            ||| (walk_result(turn, role, site_stands(turn, site), c0, c0, None)
                    && line_try(turn, s0, s1, role, gaps, i + 1, owned, c0, c1, r))
        }
    }
}

fn walk_the_line(turn: &Turn, state: &mut BotState, role: &Unit, ctx: &RoundCtx, owned: &[i64],
    claimed: &mut Vec<Pos>) -> (r: Option<RoleCommand>)
    requires
        turn.wf(),
        role.wf(),
        ctx.wf(),
        old(state).wf(),
    ensures
        line_try(turn, old(state), final(state), *role, ctx.wall_gaps@, 0, owned@, old(claimed)@, final(claimed)@, r),
        final(state).wf(),
        r is None ==> final(claimed)@ == old(claimed)@ && *final(state) == *old(state),
{
    let ghost c0 = claimed@;
    let ghost gaps = ctx.wall_gaps@;
    let mut i: usize = 0;
    while i < ctx.wall_gaps.len()
        invariant
            i <= gaps.len(),
            gaps == ctx.wall_gaps@,
            turn.wf(),
            role.wf(),
            ctx.wf(),
            *state == *old(state),
            old(state).wf(),
            claimed@ == c0,
            c0 == old(claimed)@,
            forall|s1: BotState, c1: Seq<Pos>, r: Option<RoleCommand>|
                #[trigger] line_try(turn, old(state), &s1, *role, gaps, i as int, owned@, c0, c1, r)
                ==> line_try(turn, old(state), &s1, *role, gaps, 0, owned@, c0, c1, r),
        decreases gaps.len() - i,
    {
        let site = ctx.wall_gaps[i];
        assert(pos_inner(gaps[i as int]));
        if crate::model::contains_pos(claimed, site) || !safe_gap(turn, state, owned, site) {
            assert forall|s1: BotState, c1: Seq<Pos>, r: Option<RoleCommand>|
                #[trigger] line_try(turn, old(state), &s1, *role, gaps, i as int + 1, owned@, c0, c1, r)
                implies line_try(turn, old(state), &s1, *role, gaps, 0, owned@, c0, c1, r) by {
                assert(line_try(turn, old(state), &s1, *role, gaps, i as int, owned@, c0, c1, r));
            }
            i += 1;
            continue;
        }
        let res = build_or_walk(turn, role, site, UnitKind::Wall, claimed);
        match res {
            Some(cmd) => {
                let ghost mid = claimed@;
                claimed.push(site);
                let built = chebyshev(role.pos, site) == 1 && turn.is_land(site);
                if built {
                    note_wall(state, site);
                }
                proof {
                    assert(claimed@.drop_last() =~= mid);
                    assert(line_try(turn, old(state), state, *role, gaps, i as int, owned@, c0, claimed@, Some(cmd)));
                    assert(line_try(turn, old(state), state, *role, gaps, 0, owned@, c0, claimed@, Some(cmd)));
                }
                return Some(cmd);
            },
            None => {
                assert forall|s1: BotState, c1: Seq<Pos>, r: Option<RoleCommand>|
                    #[trigger] line_try(turn, old(state), &s1, *role, gaps, i as int + 1, owned@, c0, c1, r)
                    implies line_try(turn, old(state), &s1, *role, gaps, 0, owned@, c0, c1, r) by {
                    assert(line_try(turn, old(state), &s1, *role, gaps, i as int, owned@, c0, c1, r));
                }
            },
        }
        i += 1;
    }
    assert(line_try(turn, old(state), state, *role, gaps, i as int, owned@, c0, c0, None));
    None
}

/// The day's wall quota: batch the load, walk the line, lay in the fixed
/// order. Nothing while the day's budget is spent or a role is already
/// sealed out; a gap beside A is laid when no stone is left to dig or the
/// load and the team reserve are both complete; with both complete, the
/// first safe gap in order is walked to.
pub open spec fn wall_step_result(turn: &Turn, s0: &BotState, s1: &BotState, role: Unit, ctx: &RoundCtx,
    owned: Seq<i64>, c0: Seq<Pos>, c1: Seq<Pos>, r: Option<RoleCommand>) -> bool {
    let gaps = ctx.wall_gaps@;
    let stone = role.spec_count(Item::Stone);
    if gaps.len() == 0 || stone == 0 || s0.walled_cells_today@.len() >= ctx.wall_cap
        || !spec_all_can_reach(turn, spec_homes_by_role(turn)) {
        r is None && c1 == c0 && *s1 == *s0
    } else {
        let team = team_count(turn.ours@, Item::Stone);
        let load = stone >= spec_stone_batch(turn.day, gaps.len() as int) || team >= gaps.len()
            || ctx.stone_demand <= 0 || turn.in_day_round >= DUSK_ROUND - 12
            || spec_wall_trip_overdue(turn.in_day_round as int, nearest_gap(role.pos, gaps));
        let reserve = team >= ctx.stone_demand;
        let more = spec_pick_vein(turn, s0, role, true, 0, c0, true) is Some;
        let g = if !more || (load && reserve) { adjacent_gap(turn, s0, owned, role, gaps, 0, c0) } else { None };
        match g {
            Some(g) => r == Some(RoleCommand::Build(g, UnitKind::Wall)) && c1 == c0.push(g) && walled(s0, s1, g),
            None => if load && reserve {
                line_try(turn, s0, s1, role, gaps, 0, owned, c0, c1, r)
            } else {
                r is None && c1 == c0 && *s1 == *s0
            },
        }
    }
}

pub fn build_wall_step(turn: &Turn, state: &mut BotState, role: &Unit, ctx: &RoundCtx, owned: &[i64],
    claimed: &mut Vec<Pos>) -> (r: Option<RoleCommand>)
    requires
        turn.wf(),
        role.wf(),
        ctx.wf(),
        old(state).wf(),
    ensures
        wall_step_result(turn, old(state), final(state), *role, ctx, owned@, old(claimed)@, final(claimed)@, r),
        final(state).wf(),
        r is None ==> final(claimed)@ == old(claimed)@ && *final(state) == *old(state),
{
    let stone = role.count_item(Item::Stone);
    if ctx.wall_gaps.len() == 0 || stone == 0 {
        return None;
    }
    if ctx.wall_cap as usize <= state.walled_cells_today.len() {
        return None;
    }
    if !roles_can_reach(turn) {
        return None;
    }
    assert forall|k: int| 0 <= k < ctx.wall_gaps@.len() implies pos_ok(#[trigger] ctx.wall_gaps@[k]) by {
        assert(pos_inner(ctx.wall_gaps@[k]));
    }
    let batch = stone_batch(turn, ctx.wall_gaps.len());
    let team = team_ores(turn, Item::Stone);
    let load = stone >= batch || team as u64 >= ctx.wall_gaps.len() as u64 || ctx.stone_demand <= 0
        || turn.in_day_round >= DUSK_ROUND - 12 || wall_trip_overdue(turn, role, &ctx.wall_gaps);
    let reserve = team >= ctx.stone_demand;
    let more = pick_vein(turn, state, role, true, 0, claimed, true).is_some();
    if !more || (load && reserve) {
        let adj = place_adjacent_wall(turn, state, role, ctx, owned, claimed);
        if adj.is_some() {
            return adj;
        }
    }
    if load && reserve {
        return walk_the_line(turn, state, role, ctx, owned, claimed);
    }
    None
}

// ---------------------------------------------------------------------------
// Mining
// ---------------------------------------------------------------------------

/// Does a surplus trip to `vein` still get A back to the post before dusk?
pub open spec fn surplus_fits(turn: &Turn, role: Unit, vein: Pos) -> bool {
    match spec_operator_cell(turn) {
        None => false,
        Some(post) => turn.in_day_round + spec_trip_rounds(turn, role.pos, vein) + spec_trip_rounds(turn, vein, post)
            + POST_MARGIN <= DUSK_ROUND,
    }
}

fn surplus_trip_fits(turn: &Turn, role: &Unit, vein: Pos) -> (r: bool)
    requires
        turn.wf(),
        role.wf(),
        pos_ok(vein),
    ensures
        r == surplus_fits(turn, *role, vein),
{
    match operator_cell(turn) {
        None => false,
        Some(post) => turn.in_day_round + trip_rounds(turn, role.pos, vein) + trip_rounds(turn, vein, post)
            + POST_MARGIN <= DUSK_ROUND,
    }
}

/// The ore of the first vein listed at `p`.
pub open spec fn mine_at(s: Seq<(Pos, Item)>, p: Pos) -> Option<Item>
    decreases s.len(),
{
    if s.len() == 0 {
        None
    } else if s[0].0 == p {
        Some(s[0].1)
    } else {
        mine_at(s.drop_first(), p)
    }
}

pub fn ore_at(turn: &Turn, p: Pos) -> (r: Option<Item>)
    ensures
        r == mine_at(mine_list(turn.zones@), p),
{
    let mines = turn.all_mines();
    assert(mines@.subrange(0, mines@.len() as int) =~= mines@);
    let mut i: usize = 0;
    while i < mines.len()
        invariant
            i <= mines@.len(),
            mines@ == mine_list(turn.zones@),
            mine_at(mines@, p) == mine_at(mines@.subrange(i as int, mines@.len() as int), p),
        decreases mines@.len() - i,
    {
        let ghost rest = mines@.subrange(i as int, mines@.len() as int);
        assert(rest[0] == mines@[i as int]);
        assert(rest.drop_first() =~= mines@.subrange(i as int + 1, mines@.len() as int));
        if mines[i].0 == p {
            return Some(mines[i].1);
        }
        i += 1;
    }
    None
}

/// A's latched vein, still good this round: on the map, not mined out, not
/// claimed, not blacked out, and still the right ore: stone only while the
/// team is short, ore only while it is not and the surplus trip fits.
pub open spec fn latched_a(turn: &Turn, state: &BotState, role: Unit, stone_demand: int, claimed: Seq<Pos>)
    -> Option<(Pos, Item)> {
    match state.wall_vein_latch {
        None => None,
        Some(pos) => if hits_in(state.vein_hits@, pos) >= VEIN_COLLECT_LIMIT || claimed.contains(pos) {
            None
        } else {
            match mine_at(mine_list(turn.zones@), pos) {
                None => None,
                Some(ore) => {
                    let short = !spec_stone_covered(turn, stone_demand);
                    if on_outage(state.outages@, ore, turn.day) {
                        None
                    } else if ore == Item::Stone {
                        if short { Some((pos, ore)) } else { None }
                    } else if short || !surplus_fits(turn, role, pos) {
                        None
                    } else {
                        Some((pos, ore))
                    }
                },
            }
        },
    }
}

fn latched_vein(turn: &Turn, state: &BotState, role: &Unit, stone_demand: i64, claimed: &Vec<Pos>)
    -> (r: Option<(Pos, Item)>)
    requires
        turn.wf(),
        state.wf(),
        role.wf(),
        0 <= stone_demand <= 1_000_000,
    ensures
        r == latched_a(turn, state, *role, stone_demand as int, claimed@),
        r matches Some(v) ==> pos_inner(v.0) && hits_in(state.vein_hits@, v.0) < VEIN_COLLECT_LIMIT,
{
    let pos = match state.wall_vein_latch {
        None => return None,
        Some(p) => p,
    };
    if state.hits_of(pos) >= VEIN_COLLECT_LIMIT || contains_pos(claimed, pos) {
        return None;
    }
    let ore = match ore_at(turn, pos) {
        None => return None,
        Some(o) => o,
    };
    proof {
        lemma_mine_at_inner(mine_list(turn.zones@), pos);
        lemma_mine_list_inner(turn.zones@);
    }
    let short = !stone_covered(turn, stone_demand);
    if state.ore_on_outage(ore, turn.day) {
        return None;
    }
    if ore == Item::Stone {
        if short { Some((pos, ore)) } else { None }
    } else if short || !surplus_trip_fits(turn, role, pos) {
        None
    } else {
        Some((pos, ore))
    }
}

/// A vein found in the list lies where the list's cells do.
pub proof fn lemma_mine_at_inner(s: Seq<(Pos, Item)>, p: Pos)
    ensures
        mine_at(s, p) is Some ==> s.len() > 0 && exists|k: int| 0 <= k < s.len() && s[k].0 == p,
    decreases s.len(),
{
    if s.len() > 0 && s[0].0 != p {
        lemma_mine_at_inner(s.drop_first(), p);
        if mine_at(s.drop_first(), p) is Some {
            let k = choose|k: int| 0 <= k < s.drop_first().len() && s.drop_first()[k].0 == p;
            assert(s[k + 1] == s.drop_first()[k]);
        }
    }
}

/// Collect beside the vein, else walk to it and claim it.
pub open spec fn run_vein_result(turn: &Turn, s0: &BotState, s1: &BotState, role: Unit, vein: Pos, c0: Seq<Pos>,
    c1: Seq<Pos>, r: Option<RoleCommand>) -> bool {
    if cheb(role.pos, vein) == 1 {
        &&& r == Some(RoleCommand::Collect(vein))
        &&& c1 == c0
        &&& *s1 == (BotState { vein_hits: s1.vein_hits, ..*s0 })
        &&& s1.vein_hits@ == bump(s0.vein_hits@, vein)
    } else {
        &&& *s1 == *s0
        &&& ((r is Some && c1.len() > 0 && c1.last() == vein
                && walk_result(turn, role, site_stands(turn, vein), c0, c1.drop_last(), r))
            || (r is None && c1 == c0 && walk_result(turn, role, site_stands(turn, vein), c0, c0, None)))
    }
}

pub fn run_vein(turn: &Turn, state: &mut BotState, role: &Unit, vein: Pos, claimed: &mut Vec<Pos>)
    -> (r: Option<RoleCommand>)
    requires
        turn.wf(),
        role.wf(),
        old(state).wf(),
        pos_inner(vein),
        hits_in(old(state).vein_hits@, vein) < VEIN_COLLECT_LIMIT,
    ensures
        run_vein_result(turn, old(state), final(state), *role, vein, old(claimed)@, final(claimed)@, r),
        final(state).wf(),
{
    if chebyshev(role.pos, vein) == 1 {
        state.note_collect(vein);
        return Some(RoleCommand::Collect(vein));
    }
    let stands = stand_cells(turn, vein);
    let ghost c0 = claimed@;
    match walk_toward(turn, role, &stands, claimed) {
        None => None,
        Some(cmd) => {
            let ghost mid = claimed@;
            claimed.push(vein);
            assert(claimed@.drop_last() =~= mid);
            Some(cmd)
        },
    }
}

/// Which vein A mines this round, and whether it is a fresh pick that
/// becomes the latch: the latch while it holds; else quota stone while the
/// team is short, or surplus ore on a trip that still fits.
pub open spec fn mine_pick_a(turn: &Turn, state: &BotState, role: Unit, stone_demand: int, claimed: Seq<Pos>)
    -> (Option<(Pos, Item)>, bool) {
    match latched_a(turn, state, role, stone_demand, claimed) {
        Some(v) => (Some(v), false),
        None => {
            let p = if !spec_stone_covered(turn, stone_demand) {
                spec_pick_vein(turn, state, role, true, 0, claimed, true)
            } else {
                match spec_pick_vein(turn, state, role, false, 0, claimed, false) {
                    Some(v) => if surplus_fits(turn, role, v.0) { Some(v) } else { None },
                    None => None,
                }
            };
            (p, true)
        },
    }
}

pub open spec fn mine_step_result(turn: &Turn, s0: &BotState, s1: &BotState, role: Unit, stone_demand: int,
    c0: Seq<Pos>, c1: Seq<Pos>, r: Option<RoleCommand>) -> bool {
    let (pick, fresh) = mine_pick_a(turn, s0, role, stone_demand, c0);
    match pick {
        None => r is None && c1 == c0 && *s1 == *s0,
        Some(v) => {
            let sm = if fresh { BotState { wall_vein_latch: Some(v.0), ..*s0 } } else { *s0 };
            run_vein_result(turn, &sm, s1, role, v.0, c0, c1, r)
        },
    }
}

/// The mine half of A's day: the quota stone first, surplus ore only on a
/// trip that still gets A back to the post.
pub fn mine_step(turn: &Turn, state: &mut BotState, role: &Unit, stone_demand: i64, claimed: &mut Vec<Pos>)
    -> (r: Option<RoleCommand>)
    requires
        turn.wf(),
        role.wf(),
        old(state).wf(),
        0 <= stone_demand <= 1_000_000,
    ensures
        mine_step_result(turn, old(state), final(state), *role, stone_demand as int, old(claimed)@, final(claimed)@, r),
        final(state).wf(),
{
    let short = !stone_covered(turn, stone_demand);
    let vein = match latched_vein(turn, state, role, stone_demand, claimed) {
        Some(v) => v,
        None => {
            let pick = if short {
                pick_vein(turn, state, role, true, 0, claimed, true)
            } else {
                match pick_vein(turn, state, role, false, 0, claimed, false) {
                    Some(v) => if surplus_trip_fits(turn, role, v.0) { Some(v) } else { None },
                    None => None,
                }
            };
            match pick {
                None => return None,
                Some(v) => {
                    state.wall_vein_latch = Some(v.0);
                    v
                },
            }
        },
    };
    run_vein(turn, state, role, vein.0, claimed)
}

// ---------------------------------------------------------------------------
// The day chain
// ---------------------------------------------------------------------------

/// Some vendor stands next to `p`.
pub open spec fn beside_vendor(turn: &Turn, p: Pos) -> bool {
    exists|k: int| 0 <= k < zone_cells(turn.zones@, ZoneKind::Vendor).len()
        && cheb(p, #[trigger] zone_cells(turn.zones@, ZoneKind::Vendor)[k]) == 1
}

fn is_beside_vendor(turn: &Turn, p: Pos) -> (r: bool)
    requires
        turn.wf(),
        pos_ok(p),
    ensures
        r == beside_vendor(turn, p),
{
    proof {
        lemma_zone_cells_inner(turn.zones@, ZoneKind::Vendor);
    }
    let vendors = turn.vendors();
    let mut i: usize = 0;
    while i < vendors.len()
        invariant
            i <= vendors@.len(),
            vendors@ == zone_cells(turn.zones@, ZoneKind::Vendor),
            pos_ok(p),
            forall|k: int| 0 <= k < vendors@.len() ==> pos_inner(#[trigger] vendors@[k]),
            forall|k: int| 0 <= k < i ==> cheb(p, #[trigger] vendors@[k]) != 1,
        decreases vendors@.len() - i,
    {
        if chebyshev(p, vendors[i]) == 1 {
            return true;
        }
        i += 1;
    }
    false
}

/// Steps 6 to 9: repair, sell on a trigger, mine (or dump when full), and
/// burn a summon order when nothing else wants the round.
pub open spec fn a_after_walls(turn: &Turn, s0: &BotState, s1: &BotState, role: Unit, ctx: &RoundCtx,
    c0: Seq<Pos>, c1: Seq<Pos>, r: Option<RoleCommand>) -> bool {
    let demand = ctx.stone_demand as int;
    let burn = c1 == c0 && burn_result(s0, s1, role, r);
    ||| (r is Some && *s1 == *s0 && repair_flow_result(turn, role, ctx.wall_gaps@, c0, c1, r))
    ||| (repair_flow_result(turn, role, ctx.wall_gaps@, c0, c0, None) && match spec_sell_trigger(turn, s0, role, demand) {
        Some(_) => *s1 == *s0 && if spec_sellable_ores(turn, role, demand) <= 0 {
            match spec_discard_command(turn, s0, role, demand) {
                Some(c) => r == Some(c) && c1 == c0,
                None => sell_flow_result(turn, s0, role, demand, c0, c1, r),
            }
        } else {
            sell_flow_result(turn, s0, role, demand, c0, c1, r)
        },
        None => if turn.in_day_round < DUSK_ROUND {
            if role.backpack@.len() >= role.capacity {
                match spec_discard_command(turn, s0, role, demand) {
                    Some(c) => r == Some(c) && c1 == c0 && *s1 == *s0,
                    None => burn,
                }
            } else {
                let sm = mine_mid(turn, s0, role, demand, c0);
                ||| (r is Some && mine_step_result(turn, s0, s1, role, demand, c0, c1, r))
                ||| (mine_step_result(turn, s0, &sm, role, demand, c0, c0, None) && c1 == c0 && burn_result(&sm, s1, role, r))
            }
        } else {
            burn
        },
    })
}

/// The memory after a mine step that gave no command: a fresh pick still
/// becomes the latch.
pub open spec fn mine_mid(turn: &Turn, s0: &BotState, role: Unit, stone_demand: int, c0: Seq<Pos>) -> BotState {
    let (pick, fresh) = mine_pick_a(turn, s0, role, stone_demand, c0);
    match pick {
        Some(v) => if fresh { BotState { wall_vein_latch: Some(v.0), ..*s0 } } else { *s0 },
        None => *s0,
    }
}

/// Steps 4 and 5: a tower before any wall, then the wall quota.
pub open spec fn a_after_guard(turn: &Turn, s0: &BotState, s1: &BotState, role: Unit, ctx: &RoundCtx,
    owned: Seq<i64>, c0: Seq<Pos>, c1: Seq<Pos>, r: Option<RoleCommand>) -> bool {
    ||| (r is Some && *s1 == *s0 && build_tower_result(turn, role, ctx.tower_gaps@, false, c0, c1, r))
    ||| (build_tower_result(turn, role, ctx.tower_gaps@, false, c0, c0, None) && {
            ||| (r is Some && wall_step_result(turn, s0, s1, role, ctx, owned, c0, c1, r))
            ||| (wall_step_result(turn, s0, s0, role, ctx, owned, c0, c0, None)
                    && a_after_walls(turn, s0, s1, role, ctx, c0, c1, r))
        })
}

/// A's own walk to the post no longer fits before dusk.
pub open spec fn deadline_hit(turn: &Turn, role: Unit) -> bool {
    spec_operator_cell(turn) matches Some(post)
        && turn.in_day_round + spec_trip_rounds(turn, role.pos, post) + POST_MARGIN >= DUSK_ROUND
}

/// What outranks the post guard: a wall line still holding stone, a vendor
/// counter A already stands at with ore to sell, and the cash-out band.
pub open spec fn guard_exempt(turn: &Turn, s0: &BotState, role: Unit, ctx: &RoundCtx) -> bool {
    ||| (role.spec_count(Item::Stone) > 0 && ctx.wall_gaps@.len() > 0 && turn.in_day_round < DUSK_ROUND)
    ||| (beside_vendor(turn, role.pos) && spec_sellable_ores(turn, role, ctx.stone_demand as int) > 0)
    ||| spec_sell_trigger(turn, s0, role, ctx.stone_demand as int) == Some(SellTrigger::DuskCashout)
}

/// Step 3, the post guard: once the walk to the post no longer fits, lay
/// what is adjacent and walk in; at the post, build a tower beside it or
/// hold.
pub open spec fn a_guarded(turn: &Turn, s0: &BotState, s1: &BotState, role: Unit, ctx: &RoundCtx,
    owned: Seq<i64>, c0: Seq<Pos>, c1: Seq<Pos>, r: Option<RoleCommand>) -> bool {
    if deadline_hit(turn, role) && !guard_exempt(turn, s0, role, ctx) {
        let post = spec_operator_cell(turn)->0;
        ||| (r is Some && place_adjacent_result(turn, s0, s1, role, ctx.wall_gaps@, owned, c0, c1, r))
        ||| (place_adjacent_result(turn, s0, s0, role, ctx.wall_gaps@, owned, c0, c0, None) && *s1 == *s0 && if role.pos != post {
                walk_result(turn, role, seq![post], c0, c1, r)
            } else {
                build_tower_result(turn, role, ctx.tower_gaps@, true, c0, c1, r)
            })
    } else {
        a_after_guard(turn, s0, s1, role, ctx, owned, c0, c1, r)
    }
}

/// A's whole day chain: heal, buy a Medicine, spend a voucher, then the
/// post guard and the rest.
pub open spec fn a_day(turn: &Turn, s0: &BotState, s1: &BotState, role: Unit, ctx: &RoundCtx, owned: Seq<i64>,
    c0: Seq<Pos>, c1: Seq<Pos>, r: Option<RoleCommand>) -> bool {
    match spec_use_medicine(role) {
        Some(c) => r == Some(c) && c1 == c0 && *s1 == *s0,
        None => {
            ||| (r is Some && *s1 == *s0 && provision_result(turn, role, true, c0, c1, r))
            ||| (provision_result(turn, role, true, c0, c0, None) && {
                    ||| (r is Some && *s1 == *s0 && voucher_result(turn, role, c0, c1, r))
                    ||| (voucher_result(turn, role, c0, c0, None) && a_guarded(turn, s0, s1, role, ctx, owned, c0, c1, r))
                })
        },
    }
}

fn after_walls(turn: &Turn, state: &mut BotState, role: &Unit, ctx: &RoundCtx, claimed: &mut Vec<Pos>)
    -> (r: Option<RoleCommand>)
    requires
        turn.wf(),
        role.wf(),
        ctx.wf(),
        old(state).wf(),
    ensures
        a_after_walls(turn, old(state), final(state), *role, ctx, old(claimed)@, final(claimed)@, r),
        final(state).wf(),
{
    assert forall|k: int| 0 <= k < ctx.wall_gaps@.len() implies pos_ok(#[trigger] ctx.wall_gaps@[k]) by {
        assert(pos_inner(ctx.wall_gaps@[k]));
    }
    let fixed = repair_flow(turn, role, &ctx.wall_gaps, claimed);
    if fixed.is_some() {
        return fixed;
    }
    let demand = ctx.stone_demand;
    if sell_trigger(turn, state, role, demand).is_some() {
        if sellable_ores(turn, role, demand) <= 0 {
            let dump = discard_command(turn, state, role, demand);
            if dump.is_some() {
                return dump;
            }
            return sell_flow(turn, state, role, demand, claimed);
        }
        return sell_flow(turn, state, role, demand, claimed);
    }
    if turn.in_day_round < DUSK_ROUND {
        if role.backpack_full() {
            let dump = discard_command(turn, state, role, demand);
            if dump.is_some() {
                return dump;
            }
        } else {
            let ghost s0 = *state;
            let mined = mine_step(turn, state, role, demand, claimed);
            if mined.is_some() {
                return mined;
            }
            proof {
                let (pick, fresh) = mine_pick_a(turn, &s0, *role, demand as int, old(claimed)@);
                assert(*state == mine_mid(turn, &s0, *role, demand as int, old(claimed)@));
            }
        }
    }
    burn_summon_order(state, role)
}

fn after_guard(turn: &Turn, state: &mut BotState, role: &Unit, ctx: &RoundCtx, owned: &[i64],
    claimed: &mut Vec<Pos>) -> (r: Option<RoleCommand>)
    requires
        turn.wf(),
        role.wf(),
        ctx.wf(),
        old(state).wf(),
    ensures
        a_after_guard(turn, old(state), final(state), *role, ctx, owned@, old(claimed)@, final(claimed)@, r),
        final(state).wf(),
{
    let tower = build_tower(turn, state, role, ctx, claimed, false);
    if tower.is_some() {
        return tower;
    }
    let wall = build_wall_step(turn, state, role, ctx, owned, claimed);
    if wall.is_some() {
        return wall;
    }
    after_walls(turn, state, role, ctx, claimed)
}

fn guarded(turn: &Turn, state: &mut BotState, role: &Unit, ctx: &RoundCtx, owned: &[i64],
    claimed: &mut Vec<Pos>) -> (r: Option<RoleCommand>)
    requires
        turn.wf(),
        role.wf(),
        ctx.wf(),
        old(state).wf(),
    ensures
        a_guarded(turn, old(state), final(state), *role, ctx, owned@, old(claimed)@, final(claimed)@, r),
        final(state).wf(),
{
    let post = operator_cell(turn);
    let hit = match post {
        Some(p) => turn.in_day_round + trip_rounds(turn, role.pos, p) + POST_MARGIN >= DUSK_ROUND,
        None => false,
    };
    if hit {
        let ring_tail = role.count_item(Item::Stone) > 0 && ctx.wall_gaps.len() > 0 && turn.in_day_round < DUSK_ROUND;
        let at_counter = is_beside_vendor(turn, role.pos) && sellable_ores(turn, role, ctx.stone_demand) > 0;
        let cashout = match sell_trigger(turn, state, role, ctx.stone_demand) {
            Some(SellTrigger::DuskCashout) => true,
            _ => false,
        };
        if !ring_tail && !at_counter && !cashout {
            let laid = place_adjacent_wall(turn, state, role, ctx, owned, claimed);
            if laid.is_some() {
                return laid;
            }
            let p = post.unwrap();
            if role.pos != p {
                let stands = vec![p];
                assert(stands@ =~= seq![p]);
                return walk_toward(turn, role, &stands, claimed);
            }
            return build_tower(turn, state, role, ctx, claimed, true);
        }
    }
    after_guard(turn, state, role, ctx, owned, claimed)
}

/// A's day chain: the first step that gives a command owns the round.
pub fn mainline(turn: &Turn, state: &mut BotState, role: &Unit, ctx: &RoundCtx, owned: &[i64],
    claimed: &mut Vec<Pos>) -> (r: Option<RoleCommand>)
    requires
        turn.wf(),
        role.wf(),
        ctx.wf(),
        old(state).wf(),
    ensures
        a_day(turn, old(state), final(state), *role, ctx, owned@, old(claimed)@, final(claimed)@, r),
        final(state).wf(),
{
    let heal = use_medicine(role);
    if heal.is_some() {
        return heal;
    }
    let buy = self_provision(turn, role, claimed, true);
    if buy.is_some() {
        return buy;
    }
    let voucher = voucher_flow(turn, role, claimed);
    if voucher.is_some() {
        return voucher;
    }
    guarded(turn, state, role, ctx, owned, claimed)
}

/// The backstop after the chain: a role still without a command walks home.
pub open spec fn backstop_step(turn: &Turn, role: Unit, p0: Plan, p1: Plan) -> bool {
    if has_command(p0.commands@, role.id) || backstop_holds(turn, role) {
        p1 == p0
    } else {
        ||| (spec_interior_cells(turn).contains(role.pos) && p1 == p0)
        ||| exists|c: Seq<Pos>, r: Option<RoleCommand>| #[trigger] reroute_result(turn, role, spec_interior_cells(turn),
                Seq::empty(), c, r) && match r {
                Some(cmd) => plan_pushed(p0, p1, role.id, cmd),
                None => p1 == p0,
            }
    }
}

/// A's chain gave `r`, merged into `p0` as `pm`, and the backstop ran on
/// `pm`.
pub open spec fn day_then(turn: &Turn, s0: &BotState, s1: &BotState, role: Unit, ctx: &RoundCtx, owned: Seq<i64>,
    c0: Seq<Pos>, c1: Seq<Pos>, r: Option<RoleCommand>, p0: Plan, pm: Plan, p1: Plan) -> bool {
    &&& a_day(turn, s0, s1, role, ctx, owned, c0, c1, r)
    &&& match r {
        Some(cmd) => plan_pushed(p0, pm, role.id, cmd),
        None => pm == p0,
    }
    &&& backstop_step(turn, role, pm, p1)
}

/// What A's day round does to the memory, the claims and the plan.
pub open spec fn a_day_round(turn: &Turn, s0: &BotState, s1: &BotState, role: Unit, ctx: &RoundCtx, owned: Seq<i64>,
    c0: Seq<Pos>, c1: Seq<Pos>, p0: Plan, p1: Plan) -> bool {
    if role.health <= 0 {
        *s1 == *s0 && c1 == c0 && backstop_step(turn, role, p0, p1)
    } else {
        exists|r: Option<RoleCommand>, pm: Plan| #[trigger] day_then(turn, s0, s1, role, ctx, owned, c0, c1, r, p0, pm, p1)
    }
}

/// Plan A's day round: the chain's command, then the backstop walk home when
/// the chain gave none (claims ignored: declining is fine, standing still is
/// not).
pub fn plan_day(turn: &Turn, state: &mut BotState, role: &Unit, ctx: &RoundCtx, owned: &[i64],
    claimed: &mut Vec<Pos>, plan: &mut Plan)
    requires
        turn.wf(),
        role.wf(),
        ctx.wf(),
        old(state).wf(),
    ensures
        distinct_ids(old(plan).commands@) ==> distinct_ids(final(plan).commands@),
        final(state).wf(),
        a_day_round(turn, old(state), final(state), *role, ctx, owned@, old(claimed)@, final(claimed)@, *old(plan), *final(plan)),
        role.health <= 0 ==> *final(state) == *old(state) && final(claimed)@ == old(claimed)@
            && backstop_step(turn, *role, *old(plan), *final(plan)),
        role.health > 0 ==> exists|r: Option<RoleCommand>, pm: Plan| #[trigger] day_then(turn, old(state), final(state),
            *role, ctx, owned@, old(claimed)@, final(claimed)@, r, *old(plan), pm, *final(plan)),
{
    let ghost p0 = *plan;
    let r: Option<RoleCommand> = if role.alive() { mainline(turn, state, role, ctx, owned, claimed) } else { None };
    let ghost rr = r;
    match r {
        Some(cmd) => plan.push(role.id, cmd),
        None => {},
    }
    let ghost pm = *plan;
    if !plan.has(role.id) {
        let back = fallback_toward_station(turn, role);
        match back {
            Some(cmd) => plan.push(role.id, cmd),
            None => {},
        }
    }
    proof {
        if role.health > 0 {
            assert(day_then(turn, old(state), state, *role, ctx, owned@, old(claimed)@, claimed@, rr, p0, pm, *plan));
        }
    }
}

// ---------------------------------------------------------------------------
// The night: one operator fires the whole L
// ---------------------------------------------------------------------------

/// Indices of our live towers, in unit order.
pub open spec fn tower_ids(s: Seq<Unit>) -> Seq<int>
    decreases s.len(),
{
    if s.len() == 0 {
        Seq::empty()
    } else {
        tower_ids(s.drop_last()) + if is_live_tower(s.last()) { seq![s.len() - 1] } else { Seq::empty() }
    }
}

pub open spec fn load_of(turn: &Turn, i: int) -> int {
    threat_sum(turn, turn.ours@[i], turn.robots@)
}

/// Insert tower `x` after every tower of `s` carrying at least as much
/// threat.
pub open spec fn insert_load(turn: &Turn, s: Seq<int>, x: int) -> Seq<int>
    decreases s.len(),
{
    if s.len() == 0 {
        seq![x]
    } else if load_of(turn, s[0]) < load_of(turn, x) {
        seq![x] + s
    } else {
        seq![s[0]] + insert_load(turn, s.subrange(1, s.len() as int), x)
    }
}

/// The towers most pressured first, ties in unit order.
pub open spec fn sort_load(turn: &Turn, s: Seq<int>) -> Seq<int>
    decreases s.len(),
{
    if s.len() == 0 { Seq::empty() } else { insert_load(turn, sort_load(turn, s.drop_last()), s.last()) }
}

proof fn lemma_insert_load_at(turn: &Turn, s: Seq<int>, x: int, j: int)
    requires
        0 <= j <= s.len(),
        forall|k: int| 0 <= k < j ==> load_of(turn, #[trigger] s[k]) >= load_of(turn, x),
        j < s.len() ==> load_of(turn, s[j]) < load_of(turn, x),
    ensures
        insert_load(turn, s, x) == s.take(j) + seq![x] + s.skip(j),
    decreases s.len(),
{
    if s.len() == 0 {
        assert(s.take(j) + seq![x] + s.skip(j) =~= seq![x]);
    } else if j == 0 {
        assert(s.take(0) + seq![x] + s.skip(0) =~= seq![x] + s);
    } else {
        let t = s.subrange(1, s.len() as int);
        assert forall|k: int| 0 <= k < j - 1 implies load_of(turn, #[trigger] t[k]) >= load_of(turn, x) by {
            assert(t[k] == s[k + 1]);
        }
        if j - 1 < t.len() {
            assert(t[j - 1] == s[j]);
        }
        lemma_insert_load_at(turn, t, x, j - 1);
        assert(seq![s[0]] + (t.take(j - 1) + seq![x] + t.skip(j - 1)) =~= s.take(j) + seq![x] + s.skip(j));
    }
}

/// Our towers, most pressured first (stable).
fn towers_by_load(turn: &Turn) -> (r: Vec<usize>)
    requires
        turn.wf(),
    ensures
        r@.map_values(|i: usize| i as int) == sort_load(turn, tower_ids(turn.ours@)),
        forall|k: int| 0 <= k < r@.len() ==> (#[trigger] r@[k]) < turn.ours@.len() && is_live_tower(turn.ours@[r@[k] as int]),
{
    let mut out: Vec<usize> = Vec::new();
    let mut keys: Vec<i64> = Vec::new();
    let mut i: usize = 0;
    while i < turn.ours.len()
        invariant
            i <= turn.ours@.len(),
            turn.wf(),
            out@.map_values(|q: usize| q as int) == sort_load(turn, tower_ids(turn.ours@.take(i as int))),
            keys@.len() == out@.len(),
            forall|k: int| 0 <= k < out@.len() ==> (#[trigger] out@[k]) < i,
            forall|k: int| 0 <= k < out@.len() ==> is_live_tower(turn.ours@[(#[trigger] out@[k]) as int]),
            forall|k: int| 0 <= k < out@.len() ==> keys@[k] == load_of(turn, (#[trigger] out@[k]) as int),
        decreases turn.ours@.len() - i,
    {
        assert(turn.ours@.take(i as int + 1).drop_last() =~= turn.ours@.take(i as int));
        assert(turn.ours@.take(i as int + 1).last() == turn.ours@[i as int]);
        assert(turn.ours@.take(i as int + 1).len() - 1 == i as int);
        let u = &turn.ours[i];
        assert(u.wf());
        if u.kind.is_tower() && u.health > 0 {
            let kx = threat_load(turn, u);
            let ghost ids_before = tower_ids(turn.ours@.take(i as int));
            assert(tower_ids(turn.ours@.take(i as int + 1)) =~= ids_before.push(i as int));
            assert(ids_before.push(i as int).drop_last() =~= ids_before);
            let ghost before = out@;
            let ghost vb = before.map_values(|q: usize| q as int);
            let mut j: usize = 0;
            while j < out.len() && keys[j] >= kx
                invariant
                    j <= out@.len(),
                    keys@.len() == out@.len(),
                    out@ == before,
                    forall|k: int| 0 <= k < out@.len() ==> keys@[k] == load_of(turn, (#[trigger] out@[k]) as int),
                    forall|k: int| 0 <= k < j ==> load_of(turn, (#[trigger] out@[k]) as int) >= kx,
                decreases out@.len() - j,
            {
                j += 1;
            }
            proof {
                assert forall|k: int| 0 <= k < j implies load_of(turn, #[trigger] vb[k]) >= load_of(turn, i as int) by {
                    assert(vb[k] == before[k] as int);
                }
                if j < before.len() {
                    assert(vb[j as int] == before[j as int] as int);
                }
                lemma_insert_load_at(turn, vb, i as int, j as int);
            }
            let ghost kbefore = keys@;
            out.insert(j, i);
            keys.insert(j, kx);
            assert(out@.map_values(|q: usize| q as int) =~= vb.take(j as int) + seq![i as int] + vb.skip(j as int));
            assert forall|k: int| 0 <= k < out@.len() implies keys@[k] == load_of(turn, (#[trigger] out@[k]) as int)
                && (#[trigger] out@[k]) < i + 1 && is_live_tower(turn.ours@[out@[k] as int]) by {
                if k < j {
                    assert(out@[k] == before[k]);
                } else if k > j {
                    assert(out@[k] == before[k - 1]);
                }
            }
        } else {
            assert(tower_ids(turn.ours@.take(i as int + 1)) =~= tower_ids(turn.ours@.take(i as int)));
        }
        i += 1;
    }
    assert(turn.ours@.take(turn.ours@.len() as int) =~= turn.ours@);
    out
}

/// The salvo so far: the damage simulation (robots, buildings, towers
/// fired), the volleys given (tower, cells), whether any gun fired, the
/// reload-round mend, and whether a volley went at the opponent's base.
pub open spec fn salvo_start(turn: &Turn) -> (Seq<(i64, i64)>, Seq<(i64, i64)>, Seq<i64>, Seq<(i64, Seq<Pos>)>, bool,
    Option<RoleCommand>, bool) {
    (robot_entries(turn.robots@), unit_entries(turn.enemy@), Seq::empty(), Seq::empty(), false, None, false)
}

pub open spec fn spec_mend(turn: &Turn, role: Unit) -> Option<RoleCommand> {
    match spec_night_mend_target(turn, role) {
        Some(p) => Some(RoleCommand::UseAt(Item::WallFixer, p)),
        None => None,
    }
}

/// One tower of the salvo: a ready gun beside A fires if it has a target;
/// with none it stays dark, and a gun held for robots out of every reach
/// (or one reloading) lends the round to the wall instead.
pub open spec fn salvo_step(turn: &Turn, policy: Policy, role: Unit, t: Unit,
    a: (Seq<(i64, i64)>, Seq<(i64, i64)>, Seq<i64>, Seq<(i64, Seq<Pos>)>, bool, Option<RoleCommand>, bool))
    -> (Seq<(i64, i64)>, Seq<(i64, i64)>, Seq<i64>, Seq<(i64, Seq<Pos>)>, bool, Option<RoleCommand>, bool) {
    let adjacent = cheb(role.pos, t.pos) <= 1;
    if adjacent && t.cooldown == 0 {
        let c = spec_choose(policy, turn, t, a.0, a.1, a.2);
        match c.0 {
            Some(x) => (c.1, c.2, c.3, a.3.push((t.id, x.0)), true, a.5, a.6 || x.1 == TargetKind::EnemyAssets),
            None => if spec_spare_firepower(turn) || a.5 is Some {
                (c.1, c.2, c.3, a.3, a.4, a.5, a.6)
            } else {
                (c.1, c.2, c.3, a.3, a.4, spec_mend(turn, role), a.6)
            },
        }
    } else if adjacent && a.5 is None {
        (a.0, a.1, a.2, a.3, a.4, spec_mend(turn, role), a.6)
    } else {
        a
    }
}

pub open spec fn salvo_fold(turn: &Turn, policy: Policy, role: Unit, ids: Seq<int>,
    a: (Seq<(i64, i64)>, Seq<(i64, i64)>, Seq<i64>, Seq<(i64, Seq<Pos>)>, bool, Option<RoleCommand>, bool))
    -> (Seq<(i64, i64)>, Seq<(i64, i64)>, Seq<i64>, Seq<(i64, Seq<Pos>)>, bool, Option<RoleCommand>, bool)
    decreases ids.len(),
{
    if ids.len() == 0 {
        a
    } else {
        salvo_fold(turn, policy, role, ids.drop_first(), salvo_step(turn, policy, role, turn.ours@[ids[0]], a))
    }
}

/// `p1` is `pm` with an attack at these cells given to tower `id` (the
/// first command of a tower wins).
pub open spec fn attack_pushed(pm: Plan, p1: Plan, id: i64, tg: Seq<Pos>) -> bool {
    &&& p1.prompt == pm.prompt
    &&& p1.execute_cmd == pm.execute_cmd
    &&& has_command(pm.commands@, id) ==> p1.commands@ == pm.commands@
    &&& !has_command(pm.commands@, id) ==> p1.commands@.len() == pm.commands@.len() + 1
        && p1.commands@.drop_last() == pm.commands@ && p1.commands@.last().0 == id
        && (p1.commands@.last().1 matches RoleCommand::Attack(v) && v@ == tg)
}

/// Each plan of `ps` is the one before it with the matching volley given.
pub open spec fn plans_chain(ps: Seq<Plan>, vs: Seq<(i64, Seq<Pos>)>) -> bool {
    &&& ps.len() == vs.len() + 1
    &&& forall|i: int| 0 <= i < vs.len() ==> attack_pushed(#[trigger] ps[i], ps[i + 1], vs[i].0, vs[i].1)
}

/// `p1` is `p0` with the volleys given in order.
pub open spec fn volleys_pushed(p0: Plan, p1: Plan, vs: Seq<(i64, Seq<Pos>)>) -> bool {
    exists|ps: Seq<Plan>| #[trigger] plans_chain(ps, vs) && ps[0] == p0 && ps.last() == p1
}

/// The memory after the salvo: the coach hears of fire at the opponent's
/// buildings.
pub open spec fn after_salvo(s: &BotState, enemy: bool) -> BotState {
    if enemy {
        BotState { coach: Coach { ledger: NightLedger { our_fire_on_enemy: true, ..s.coach.ledger }, ..s.coach }, ..*s }
    } else {
        *s
    }
}

fn fire_salvo(turn: &Turn, state: &mut BotState, role: &Unit, plan: &mut Plan) -> (out: (bool, Option<RoleCommand>))
    requires
        turn.wf(),
        role.wf(),
        old(state).wf(),
    ensures
        distinct_ids(old(plan).commands@) ==> distinct_ids(final(plan).commands@),
        ({
            let a = salvo_fold(turn, old(state).coach.policy, *role, sort_load(turn, tower_ids(turn.ours@)),
                salvo_start(turn));
            &&& volleys_pushed(*old(plan), *final(plan), a.3)
            &&& out.0 == a.4
            &&& out.1 == a.5
            &&& *final(state) == after_salvo(old(state), a.6)
        }),
        final(state).wf(),
{
    let towers = towers_by_load(turn);
    let ghost ids = sort_load(turn, tower_ids(turn.ours@));
    let policy = state.coach.policy();
    let mut sim = init_sim(turn);
    let mut fired_any = false;
    let mut mend: Option<RoleCommand> = None;
    let mut enemy = false;
    let ghost mut volleys: Seq<(i64, Seq<Pos>)> = Seq::empty();
    let ghost p0 = *plan;
    let ghost mut ps: Seq<Plan> = seq![*plan];
    let mut k: usize = 0;
    assert(towers@.map_values(|i: usize| i as int).subrange(0, towers@.len() as int) =~= ids);
    while k < towers.len()
        invariant
            k <= towers@.len(),
            turn.wf(),
            role.wf(),
            old(state).wf(),
            policy == old(state).coach.policy,
            towers@.map_values(|i: usize| i as int) == ids,
            forall|q: int| 0 <= q < towers@.len() ==> (#[trigger] towers@[q]) < turn.ours@.len() && is_live_tower(turn.ours@[towers@[q] as int]),
            sim.wf(),
            *state == after_salvo(old(state), enemy),
            state.wf(),
            plans_chain(ps, volleys),
            distinct_ids(p0.commands@) ==> distinct_ids(plan.commands@),
            p0 == *old(plan),
            ps[0] == p0,
            ps.last() == *plan,
            salvo_fold(turn, policy, *role, ids, salvo_start(turn))
                == salvo_fold(turn, policy, *role, ids.subrange(k as int, ids.len() as int),
                    (sim.robots@, sim.buildings@, sim.fired@, volleys, fired_any, mend, enemy)),
        decreases towers@.len() - k,
    {
        let ghost rest = ids.subrange(k as int, ids.len() as int);
        assert(rest[0] == towers@[k as int] as int);
        assert(rest.drop_first() =~= ids.subrange(k as int + 1, ids.len() as int));
        let t = &turn.ours[towers[k]];
        assert(t.wf());
        let ghost a = (sim.robots@, sim.buildings@, sim.fired@, volleys, fired_any, mend, enemy);
        let adjacent = chebyshev(role.pos, t.pos) <= 1;
        if adjacent && t.cooldown == 0 {
            match choose_attack_kind_with(&policy, turn, t, &mut sim) {
                Some((targets, kind)) => {
                    let ghost tg = targets@;
                    let ghost pm = *plan;
                    if kind == TargetKind::EnemyAssets {
                        if !enemy {
                            state.coach.note_enemy_fire();
                        }
                        enemy = true;
                    }
                    let ghost cmd = RoleCommand::Attack(targets);
                    plan.push(t.id, RoleCommand::Attack(targets));
                    proof {
                        if !has_command(pm.commands@, t.id) {
                            assert(plan.commands@ == pm.commands@.push((t.id, cmd)));
                            assert(plan.commands@.drop_last() =~= pm.commands@);
                            assert(plan.commands@.last() == (t.id, cmd));
                        }
                        assert(attack_pushed(pm, *plan, t.id, tg));
                        let nv = volleys.push((t.id, tg));
                        let nps = ps.push(*plan);
                        assert forall|i: int| 0 <= i < nv.len() implies
                            attack_pushed(#[trigger] nps[i], nps[i + 1], nv[i].0, nv[i].1) by {
                            if i < volleys.len() {
                                assert(nps[i] == ps[i] && nps[i + 1] == ps[i + 1] && nv[i] == volleys[i]);
                            }
                        }
                        ps = nps;
                        volleys = nv;
                    }
                    fired_any = true;
                },
                None => {
                    if !spare_firepower(turn) && mend.is_none() {
                        mend = cooldown_repair(turn, role);
                    }
                },
            }
        } else if adjacent && mend.is_none() {
            mend = cooldown_repair(turn, role);
        }
        proof {
            assert(salvo_step(turn, policy, *role, turn.ours@[ids[k as int]], a)
                == (sim.robots@, sim.buildings@, sim.fired@, volleys, fired_any, mend, enemy));
        }
        k += 1;
    }
    proof {
        assert(ids.subrange(k as int, ids.len() as int).len() == 0);
        assert(plans_chain(ps, volleys) && ps[0] == p0 && ps.last() == *plan);
    }
    (fired_any, mend)
}

// ---------------------------------------------------------------------------
// The swept-night mine
// ---------------------------------------------------------------------------

/// The nearest stone vein safe after dark (trip, then coordinates).
pub open spec fn stone_fold(turn: &Turn, state: &BotState, role: Unit, claimed: Seq<Pos>, s: Seq<(Pos, Item)>)
    -> Option<(int, Pos)>
    decreases s.len(),
{
    if s.len() == 0 {
        None
    } else {
        let rest = stone_fold(turn, state, role, claimed, s.drop_last());
        let p = s.last().0;
        let ore = s.last().1;
        if ore != Item::Stone || on_outage(state.outages@, ore, turn.day) || claimed.contains(p)
            || hits_in(state.vein_hits@, p) >= VEIN_COLLECT_LIMIT
            || !spec_night_safe(turn, p, NIGHT_ROBOT_CLEARANCE as int) {
            rest
        } else {
            let t = vein_trip(turn, role, p);
            match rest {
                None => Some((t, p)),
                Some(b) => if t < b.0 || (t == b.0 && (p.x < b.1.x || (p.x == b.1.x && p.y < b.1.y))) {
                    Some((t, p))
                } else {
                    rest
                },
            }
        }
    }
}

fn night_stone_pick(turn: &Turn, state: &BotState, role: &Unit, claimed: &Vec<Pos>) -> (r: Option<Pos>)
    requires
        turn.wf(),
        state.wf(),
        role.wf(),
    ensures
        match stone_fold(turn, state, *role, claimed@, mine_list(turn.zones@)) {
            Some(b) => r == Some(b.1),
            None => r is None,
        },
        r matches Some(p) ==> pos_inner(p) && hits_in(state.vein_hits@, p) < VEIN_COLLECT_LIMIT,
{
    proof {
        lemma_mine_list_inner(turn.zones@);
    }
    let mines = turn.all_mines();
    let mut best: Option<(i64, Pos)> = None;
    let mut i: usize = 0;
    while i < mines.len()
        invariant
            i <= mines@.len(),
            turn.wf(),
            state.wf(),
            role.wf(),
            mines@ == mine_list(turn.zones@),
            forall|k: int| 0 <= k < mines@.len() ==> pos_inner(#[trigger] mines@[k].0),
            match best {
                Some(b) => stone_fold(turn, state, *role, claimed@, mines@.take(i as int)) == Some((b.0 as int, b.1))
                    && pos_inner(b.1) && hits_in(state.vein_hits@, b.1) < VEIN_COLLECT_LIMIT,
                None => stone_fold(turn, state, *role, claimed@, mines@.take(i as int)) is None,
            },
        decreases mines@.len() - i,
    {
        assert(mines@.take(i as int + 1).drop_last() =~= mines@.take(i as int));
        assert(mines@.take(i as int + 1).last() == mines@[i as int]);
        let (p, ore) = mines[i];
        if ore == Item::Stone && !state.ore_on_outage(ore, turn.day) && !contains_pos(claimed, p)
            && state.hits_of(p) < VEIN_COLLECT_LIMIT && night_safe(turn, p, NIGHT_ROBOT_CLEARANCE) {
            let t0 = trip_rounds(turn, role.pos, p);
            let t: i64 = if t0 > 1 { t0 } else { 1 };
            let better = match best {
                None => true,
                Some(b) => t < b.0 || (t == b.0 && (p.x < b.1.x || (p.x == b.1.x && p.y < b.1.y))),
            };
            if better {
                best = Some((t, p));
            }
        }
        i += 1;
    }
    assert(mines@.take(mines@.len() as int) =~= mines@);
    match best {
        Some(b) => Some(b.1),
        None => None,
    }
}

/// The latch after dark: the day's revalidation minus the dusk deadline.
pub open spec fn night_latched(turn: &Turn, state: &BotState, claimed: Seq<Pos>, short: bool) -> Option<(Pos, Item)> {
    match state.wall_vein_latch {
        None => None,
        Some(pos) => if hits_in(state.vein_hits@, pos) >= VEIN_COLLECT_LIMIT || claimed.contains(pos) {
            None
        } else {
            match mine_at(mine_list(turn.zones@), pos) {
                None => None,
                Some(ore) => if on_outage(state.outages@, ore, turn.day) {
                    None
                } else if ore == Item::Stone {
                    if short { Some((pos, ore)) } else { None }
                } else if short {
                    None
                } else {
                    Some((pos, ore))
                },
            }
        },
    }
}

fn night_latched_vein(turn: &Turn, state: &BotState, claimed: &Vec<Pos>, short: bool) -> (r: Option<(Pos, Item)>)
    requires
        turn.wf(),
        state.wf(),
    ensures
        r == night_latched(turn, state, claimed@, short),
        r matches Some(v) ==> pos_inner(v.0) && hits_in(state.vein_hits@, v.0) < VEIN_COLLECT_LIMIT,
{
    let pos = match state.wall_vein_latch {
        None => return None,
        Some(p) => p,
    };
    if state.hits_of(pos) >= VEIN_COLLECT_LIMIT || contains_pos(claimed, pos) {
        return None;
    }
    let ore = match ore_at(turn, pos) {
        None => return None,
        Some(o) => o,
    };
    proof {
        lemma_mine_at_inner(mine_list(turn.zones@), pos);
        lemma_mine_list_inner(turn.zones@);
    }
    if state.ore_on_outage(ore, turn.day) {
        return None;
    }
    if ore == Item::Stone {
        if short { Some((pos, ore)) } else { None }
    } else if short {
        None
    } else {
        Some((pos, ore))
    }
}

/// Which vein A mines after dark, and whether the pick is fresh: the latch,
/// else stone (nearest first, ore when no stone survives) while the team is
/// short, else the best ore outside every robot's clearance.
pub open spec fn night_pick(turn: &Turn, state: &BotState, role: Unit, stone_demand: int, claimed: Seq<Pos>)
    -> (Option<(Pos, Item)>, bool) {
    let short = !spec_stone_covered(turn, stone_demand);
    match night_latched(turn, state, claimed, short) {
        Some(v) => (Some(v), false),
        None => {
            let ore_pick = spec_pick_vein(turn, state, role, false, NIGHT_ROBOT_CLEARANCE as int, claimed, false);
            let p = if short {
                match stone_fold(turn, state, role, claimed, mine_list(turn.zones@)) {
                    Some(b) => Some((b.1, Item::Stone)),
                    None => ore_pick,
                }
            } else {
                ore_pick
            };
            (p, true)
        },
    }
}

pub open spec fn night_mine_result(turn: &Turn, s0: &BotState, s1: &BotState, role: Unit, c0: Seq<Pos>, c1: Seq<Pos>,
    r: Option<RoleCommand>) -> bool {
    let demand = spec_stone_demand(turn, s0);
    if role.backpack@.len() >= role.capacity {
        r == spec_discard_command(turn, s0, role, demand) && c1 == c0 && *s1 == *s0
    } else {
        let (pick, fresh) = night_pick(turn, s0, role, demand, c0);
        match pick {
            None => r is None && c1 == c0 && *s1 == *s0,
            Some(v) => {
                let sm = if fresh { BotState { wall_vein_latch: Some(v.0), ..*s0 } } else { *s0 };
                run_vein_result(turn, &sm, s1, role, v.0, c0, c1, r)
            },
        }
    }
}

/// The mine half of the swept night: once no hostile robot lives, A goes
/// out and mines, the quota stone first, every pick outside the robots'
/// clearance.
pub fn night_mine_step(turn: &Turn, state: &mut BotState, role: &Unit, claimed: &mut Vec<Pos>) -> (r: Option<RoleCommand>)
    requires
        turn.wf(),
        role.wf(),
        old(state).wf(),
    ensures
        night_mine_result(turn, old(state), final(state), *role, old(claimed)@, final(claimed)@, r),
        final(state).wf(),
{
    let demand = stone_demand_of(turn, state);
    if role.backpack_full() {
        return discard_command(turn, state, role, demand);
    }
    let short = !stone_covered(turn, demand);
    let vein = match night_latched_vein(turn, state, claimed, short) {
        Some(v) => v,
        None => {
            let pick = if short {
                match night_stone_pick(turn, state, role, claimed) {
                    Some(p) => Some((p, Item::Stone)),
                    None => pick_vein(turn, state, role, false, NIGHT_ROBOT_CLEARANCE, claimed, false),
                }
            } else {
                pick_vein(turn, state, role, false, NIGHT_ROBOT_CLEARANCE, claimed, false)
            };
            match pick {
                None => return None,
                Some(v) => {
                    state.wall_vein_latch = Some(v.0);
                    v
                },
            }
        },
    };
    run_vein(turn, state, role, vein.0, claimed)
}

// ---------------------------------------------------------------------------
// The night chain
// ---------------------------------------------------------------------------

/// `s` is `s0` with the withdrawal holdout refreshed for this round.
pub open spec fn holdout_refreshed(turn: &Turn, s0: &BotState, s: BotState) -> bool {
    &&& s == (BotState { withdraw_last_threat: s.withdraw_last_threat, withdraw_holdout: s.withdraw_holdout, ..*s0 })
    &&& (s.withdraw_last_threat@, s.withdraw_holdout@)
        == holdout_fold(turn, turn.ours@, s0.withdraw_last_threat@, s0.withdraw_holdout@)
}

/// The recall: walk back onto the post honouring the claims, then ignoring
/// them, then cut through our own wall.
pub open spec fn recall_a(turn: &Turn, role: Unit, post: Pos, c0: Seq<Pos>, c1: Seq<Pos>, p0: Plan, p1: Plan) -> bool {
    let stands = seq![post];
    ||| (exists|cmd: RoleCommand| #[trigger] plan_pushed(p0, p1, role.id, cmd)
            && reroute_result(turn, role, stands, c0, c1, Some(cmd)))
    ||| (reroute_result(turn, role, stands, c0, c0, None) && c1 == c0 && {
            ||| (exists|cmd: RoleCommand, ci: Seq<Pos>| #[trigger] plan_pushed(p0, p1, role.id, cmd)
                    && #[trigger] reroute_result(turn, role, stands, Seq::empty(), ci, Some(cmd)))
            ||| (reroute_result(turn, role, stands, Seq::empty(), Seq::empty(), None) && {
                    ||| (exists|cmd: RoleCommand, cb: Seq<Pos>| #[trigger] plan_pushed(p0, p1, role.id, cmd)
                            && #[trigger] break_out_result(turn, role, stands, Seq::empty(), cb, Some(cmd)))
                    ||| (exists|cb: Seq<Pos>| #[trigger] break_out_result(turn, role, stands, Seq::empty(), cb, None))
                        && p1 == p0
                })
        })
}

/// After the salvo: a fired gun holds A at the post; a reload round mends;
/// a live wave recalls A to the post; a swept board sends A mining.
pub open spec fn a_after_salvo(turn: &Turn, sv: &BotState, s1: &BotState, role: Unit, fired: bool,
    mend: Option<RoleCommand>, c0: Seq<Pos>, c1: Seq<Pos>, pv: Plan, p1: Plan) -> bool {
    if fired {
        *s1 == *sv && c1 == c0 && p1 == pv
    } else {
        match mend {
            Some(m) => *s1 == *sv && c1 == c0 && plan_pushed(pv, p1, role.id, m),
            None => if spec_hostile_wave(turn) {
                *s1 == *sv && match spec_operator_cell(turn) {
                    Some(post) => if role.pos != post { recall_a(turn, role, post, c0, c1, pv, p1) } else { c1 == c0 && p1 == pv },
                    None => c1 == c0 && p1 == pv,
                }
            } else {
                exists|r: Option<RoleCommand>| #[trigger] night_mine_result(turn, sv, s1, role, c0, c1, r) && match r {
                    Some(c) => plan_pushed(pv, p1, role.id, c),
                    None => p1 == pv,
                }
            },
        }
    }
}

/// A's night from the refreshed memory `sh`: a wounded operator shelters
/// inside (or holds there); the night potion comes before any shot; then
/// the whole salvo, most pressured gun first, and what follows it.
pub open spec fn a_night_from(turn: &Turn, sh: &BotState, s1: &BotState, role: Unit, c0: Seq<Pos>, c1: Seq<Pos>,
    p0: Plan, p1: Plan) -> bool {
    let wounded = spec_withdrawing(turn, role)
        || (role.spec_count(Item::Medicine) == 0 && sh.withdraw_holdout@.contains(role.id));
    if wounded {
        *s1 == *sh && if spec_interior_cells(turn).contains(role.pos) {
            c1 == c0 && p1 == p0
        } else {
            exists|b: bool| #[trigger] shelter_outcome(turn, role, c0, c1, p0, p1, b)
        }
    } else {
        match spec_night_medicine(turn, role) {
            Some(c) => *s1 == *sh && c1 == c0 && plan_pushed(p0, p1, role.id, c),
            None => {
                let a = salvo_fold(turn, sh.coach.policy, role, sort_load(turn, tower_ids(turn.ours@)), salvo_start(turn));
                let sv = after_salvo(sh, a.6);
                exists|pv: Plan| #[trigger] volleys_pushed(p0, pv, a.3)
                    && a_after_salvo(turn, &sv, s1, role, a.4, a.5, c0, c1, pv, p1)
            },
        }
    }
}

/// What A's night round does.
pub open spec fn a_night_round(turn: &Turn, role: Unit, s0: &BotState, s1: &BotState, c0: Seq<Pos>, c1: Seq<Pos>,
    p0: Plan, p1: Plan) -> bool {
    if role.health <= 0 {
        *s1 == *s0 && c1 == c0 && p1 == p0
    } else {
        exists|sh: BotState| #[trigger] holdout_refreshed(turn, s0, sh) && a_night_from(turn, &sh, s1, role, c0, c1, p0, p1)
    }
}

/// Plan A's night round: the single operator of the L.
pub fn plan_night(turn: &Turn, state: &mut BotState, role: &Unit, claimed: &mut Vec<Pos>, plan: &mut Plan)
    requires
        turn.wf(),
        role.wf(),
        old(state).wf(),
    ensures
        distinct_ids(old(plan).commands@) ==> distinct_ids(final(plan).commands@),
        final(state).wf(),
        a_night_round(turn, *role, old(state), final(state), old(claimed)@, final(claimed)@, *old(plan), *final(plan)),
        role.health <= 0 ==> *final(state) == *old(state) && final(claimed)@ == old(claimed)@ && *final(plan) == *old(plan),
        role.health > 0 ==> exists|sh: BotState| #[trigger] holdout_refreshed(turn, old(state), sh)
            && a_night_from(turn, &sh, final(state), *role, old(claimed)@, final(claimed)@, *old(plan), *final(plan)),
{
    if !role.alive() {
        return;
    }
    update_withdraw_holdout(turn, state);
    let ghost sh = *state;
    assert(holdout_refreshed(turn, old(state), sh));
    let wounded = withdrawing(turn, role)
        || (role.count_item(Item::Medicine) == 0 && has_holdout(&state.withdraw_holdout, role.id));
    if wounded {
        let stands = interior_cells(turn);
        if !contains_pos(&stands, role.pos) {
            let b = shelter(turn, role, claimed, plan);
            assert(shelter_outcome(turn, *role, old(claimed)@, claimed@, *old(plan), *plan, b));
        }
        return;
    }
    if let Some(cmd) = night_medicine(turn, role) {
        plan.push(role.id, cmd);
        return;
    }
    let ghost p0 = *plan;
    let (fired, mend) = fire_salvo(turn, state, role, plan);
    let ghost pv = *plan;
    let ghost sv = *state;
    if fired {
        return;
    }
    if let Some(m) = mend {
        plan.push(role.id, m);
        return;
    }
    if hostile_wave(turn) {
        let post = operator_cell(turn);
        if let Some(p) = post {
            if role.pos != p {
                let stands = vec![p];
                assert(stands@ =~= seq![p]);
                let ghost c0 = claimed@;
                let first = walk_or_remove_wall(turn, role, &stands, claimed);
                assert(reroute_result(turn, *role, stands@, c0, claimed@, first));
                match first {
                    Some(cmd) => {
                        plan.push(role.id, cmd);
                        assert(plan_pushed(pv, *plan, role.id, cmd));
                    },
                    None => {
                        let mut ignored: Vec<Pos> = Vec::new();
                        let second = walk_or_remove_wall(turn, role, &stands, &mut ignored);
                        assert(reroute_result(turn, *role, stands@, Seq::empty(), ignored@, second));
                        match second {
                            Some(cmd) => {
                                plan.push(role.id, cmd);
                                assert(plan_pushed(pv, *plan, role.id, cmd));
                            },
                            None => {
                                assert(ignored@ == Seq::<Pos>::empty());
                                let third = break_out(turn, role, &stands, &mut ignored);
                                assert(break_out_result(turn, *role, stands@, Seq::empty(), ignored@, third));
                                match third {
                                    Some(cmd) => {
                                        plan.push(role.id, cmd);
                                        assert(plan_pushed(pv, *plan, role.id, cmd));
                                    },
                                    None => {},
                                }
                            },
                        }
                    },
                }
                assert(recall_a(turn, *role, p, old(claimed)@, claimed@, pv, *plan));
            }
        }
        return;
    }
    let mined = night_mine_step(turn, state, role, claimed);
    let ghost rr = mined;
    match mined {
        Some(cmd) => plan.push(role.id, cmd),
        None => {},
    }
    assert(night_mine_result(turn, &sv, state, *role, old(claimed)@, claimed@, rr));
}

fn has_holdout(v: &Vec<i64>, id: i64) -> (r: bool)
    ensures
        r == v@.contains(id),
{
    let mut i: usize = 0;
    while i < v.len()
        invariant
            i <= v@.len(),
            forall|j: int| 0 <= j < i ==> v@[j] != id,
        decreases v@.len() - i,
    {
        if v[i] == id {
            assert(v@[i as int] == id);
            return true;
        }
        i += 1;
    }
    false
}

} // verus!
