//! Pioneer — the third person. One mainline owns it around the clock; the
//! clock only picks which half of its duties is live.
//!
//! The day chain: heal → burn the summon orders in hand → the altar race →
//! the task → vouchers → personal medicine → the shop (the pioneer is the
//! team's buyer, on the fixed whitelist) → treasure → loiter → retreat
//! inside. The night chain: heal; with a running session and no repair kit,
//! keep working the task (unless the backup switch holds it inside while a
//! hostile wave lives); otherwise shelter, vouchers, mend, items.

use vstd::prelude::*;
use crate::brain::distinct_ids;
use crate::model::{Pos, Turn, Unit, UnitKind, Item, cheb, fp_dist, pos_ok, all_pos_ok, spec_station_footprint};
use crate::protocol::RoleCommand;
use crate::state::BotState;
use crate::brain::{Plan, plan_pushed, spec_interior_cells, interior_cells, reroute_result, walk_result, land_pred};
use crate::brain::economy::{DUSK_ROUND, Need, spec_travel, shop_travel};
use crate::brain::action::shop::{spec_use_medicine, use_medicine, spec_summon_burn, burn_summon_order, voucher_job,
    voucher_flow, provision_due, critically_wounded, shop_stands, at_shop, self_provision, walk_to_shop,
    spec_fixed_buy_list, fixed_buy_list, spec_buy_first_affordable, buy_first_affordable, same_but_summons};
use crate::model::{ZoneKind, zone_cells, spec_neighbours};
use crate::brain::action::fight::{spec_hostile_wave, hostile_wave, spec_night_medicine, night_medicine};
use crate::brain::night::{state_kept, repair_outcome, night_repair, task_pushed};

verus! {

/// Slack between the recall round and dusk proper.
pub const PIONEER_RETREAT_SLACK: i64 = 2;

pub open spec fn spec_walk_home(turn: &Turn, from: Pos) -> int {
    let cells = spec_interior_cells(turn);
    if cells.len() == 0 { 0 } else { fp_dist(from, cells) }
}

/// Rounds of walking from `from` to the nearest cell inside the ring (0
/// when the board has none).
pub fn walk_home(turn: &Turn, from: Pos) -> (n: i64)
    requires
        turn.wf(),
        pos_ok(from),
    ensures
        n == spec_walk_home(turn, from),
        0 <= n <= 2 * crate::model::COORD_LIMIT,
{
    let cells = interior_cells(turn);
    if cells.len() == 0 {
        return 0;
    }
    crate::model::footprint_distance(from, &cells) as i64
}

pub open spec fn spec_recall_round(turn: &Turn, pioneer: Unit) -> int {
    let r = DUSK_ROUND - 1 - spec_walk_home(turn, pioneer.pos) - PIONEER_RETREAT_SLACK;
    if r > 0 { r } else { 0 }
}

/// The day-round from which the pioneer takes on nothing outside the wall
/// line and heads home: dusk less the walk back from where it stands, less
/// a small slack (never below zero).
pub fn recall_round(turn: &Turn, pioneer: &Unit) -> (n: i64)
    requires
        turn.wf(),
        pioneer.wf(),
    ensures
        n == spec_recall_round(turn, *pioneer),
{
    let walk = walk_home(turn, pioneer.pos);
    let r = DUSK_ROUND - 1 - walk - PIONEER_RETREAT_SLACK;
    if r > 0 { r } else { 0 }
}

/// Already home: within one cell of the station's footprint.
pub open spec fn at_home(turn: &Turn, role: Unit) -> bool {
    turn.spec_station() matches Some(st) && fp_dist(role.pos, spec_station_footprint(st.pos)) <= 1
}

/// What the retreat inside promises of its outcome.
pub open spec fn retreat_result(turn: &Turn, role: Unit, c0: Seq<Pos>, c1: Seq<Pos>, r: Option<RoleCommand>) -> bool {
    let stands = spec_interior_cells(turn);
    if turn.spec_station() is None || at_home(turn, role) || stands.len() == 0 {
        r is None && c1 == c0
    } else {
        ||| stands.contains(role.pos) && r is None && c1 == c0
        ||| !stands.contains(role.pos) && (reroute_result(turn, role, stands, c0, c1, r)
            || (c1 == c0 && r is Some && exists|cx: Seq<Pos>| #[trigger] reroute_result(turn, role, stands, Seq::empty(), cx, r)))
    }
}

/// Walk a role back inside the ring, onto a cell hugging the station.
/// `None` when there is no station, the role is already home, or no such
/// cell exists; otherwise the walk honours claims first, then ignores them,
/// cutting through one of our walls when that alone reopens the way.
pub fn retreat_inside(turn: &Turn, role: &Unit, claimed: &mut Vec<Pos>) -> (r: Option<RoleCommand>)
    requires
        turn.wf(),
        role.wf(),
    ensures
        retreat_result(turn, *role, old(claimed)@, final(claimed)@, r),
{
    proof {
        crate::brain::action::base_layout::lemma_station_wf(turn);
    }
    let station = match turn.station() {
        Some(s) => s,
        None => return None,
    };
    proof {
        crate::brain::lemma_station_cells_within(station.pos);
    }
    let footprint = crate::model::station_footprint(station.pos);
    if crate::model::footprint_distance(role.pos, &footprint) <= 1 {
        return None;
    }
    let stands = interior_cells(turn);
    if stands.len() == 0 {
        return None;
    }
    crate::brain::day::walk_home_or_reroute(turn, role, &stands, claimed)
}

// ---------------------------------------------------------------------------
// Night
// ---------------------------------------------------------------------------

/// The pioneer keeps working its task tonight: a running session, no
/// repair kit, and no backup hold (the switch on with a hostile wave alive).
pub open spec fn pioneer_works_task(turn: &Turn, state: &BotState, role: Unit) -> bool {
    &&& !(state.pioneer_night_backup && spec_hostile_wave(turn))
    &&& role.kind == UnitKind::Pioneer
    &&& state.task_active
    &&& role.spec_count(Item::WallFixer) == 0
}

/// The night repair-duty chain: heal first; a pioneer in a running session
/// with no repair kit works the task (`task_cmd` is the task runner's ask
/// this round) unless the backup switch holds it inside while a hostile wave
/// lives; otherwise shelter, vouchers, mend and items.
pub fn plan_night(turn: &Turn, state: &mut BotState, role: &Unit, claimed: &mut Vec<Pos>, plan: &mut Plan,
    task_cmd: Option<RoleCommand>)
    requires
        turn.wf(),
        role.wf(),
        old(state).wf(),
    ensures
        distinct_ids(old(plan).commands@) ==> distinct_ids(final(plan).commands@),
        final(state).wf(),
        match spec_night_medicine(turn, *role) {
            Some(c) => state_kept(old(state), final(state)) && final(claimed)@ == old(claimed)@
                && plan_pushed(*old(plan), *final(plan), role.id, c),
            None => if pioneer_works_task(turn, old(state), *role) {
                state_kept(old(state), final(state)) && final(claimed)@ == old(claimed)@
                    && task_pushed(*old(plan), *final(plan), role.id, task_cmd)
            } else {
                repair_outcome(turn, *role, old(state), final(state), old(claimed)@, final(claimed)@,
                    *old(plan), *final(plan))
            },
        },
{
    match night_medicine(turn, role) {
        Some(cmd) => {
            plan.push(role.id, cmd);
            return;
        },
        None => {},
    }
    let backup = state.pioneer_night_backup && hostile_wave(turn);
    let repair_duty = role.count_item(Item::WallFixer) > 0;
    if !backup && role.kind == UnitKind::Pioneer && state.task_active && !repair_duty {
        match task_cmd {
            Some(cmd) => plan.push(role.id, cmd),
            None => {},
        }
        return;
    }
    night_repair(turn, state, role, claimed, plan);
}

// ---------------------------------------------------------------------------
// Day
// ---------------------------------------------------------------------------

/// What the pioneer's other runners ask of it this round: the task session,
/// the treasure hunt and the task-point scout each keep their own state; the
/// day chain only decides which of them gets the round.
pub struct DayErrands {
    /// The task runner's command while a session runs (including the walk
    /// back onto its point); `None` while it only holds.
    pub task: Option<RoleCommand>,
    /// The altar's one-shot window is open this round.
    pub altar_window: bool,
    /// The treasure runner's command.
    pub treasure: Option<RoleCommand>,
    /// The pioneer is holding beside the altar for its window.
    pub holds_altar: bool,
    /// The walk to (or the accept of) a fresh task point, when one is ready.
    pub next_task: Option<RoleCommand>,
    /// The walk to a stand beside a task point, to catch its refresh.
    pub loiter: Option<RoleCommand>,
    /// Gold the whitelist may not spend.
    pub reserve: i64,
}

pub open spec fn spec_recalled(turn: &Turn, pioneer: Unit) -> bool {
    turn.in_day_round >= spec_recall_round(turn, pioneer)
}

/// The memory the day chain leaves alone.
pub open spec fn day_kept(a: &BotState, b: &BotState) -> bool {
    &&& a.blacklisted_builds@ == b.blacklisted_builds@
    &&& a.ring_ever_complete == b.ring_ever_complete
    &&& a.threatened@ == b.threatened@
    &&& a.base_prices@ == b.base_prices@
    &&& a.outages@ == b.outages@
    &&& a.outlooks@ == b.outlooks@
    &&& a.coach == b.coach
    &&& a.pioneer_night_backup == b.pioneer_night_backup
    &&& a.walls_built_today == b.walls_built_today
    &&& a.walled_cells_today@ == b.walled_cells_today@
    &&& a.wall_vein_latch == b.wall_vein_latch
    &&& a.vein_latch == b.vein_latch
    &&& a.vein_hits@ == b.vein_hits@
    &&& a.withdraw_holdout@ == b.withdraw_holdout@
    &&& a.withdraw_last_threat@ == b.withdraw_last_threat@
    &&& a.d1_weapon_helped == b.d1_weapon_helped
    &&& a.news == b.news
}

/// The buyer's sync slot: the round it expects to stand at the counter, when
/// the whitelist holds anything to buy.
pub open spec fn spec_buy_deadline(turn: &Turn, pioneer: Unit) -> Option<i64> {
    if spec_fixed_buy_list(turn).len() > 0 {
        Some((turn.round_no + spec_travel(turn, pioneer.pos, zone_cells(turn.zones@, ZoneKind::WeaponShop))) as i64)
    } else {
        None
    }
}

/// The tail of the day: treasure, the altar hold and the loiter before the
/// recall, then the retreat inside.
pub open spec fn tail_chain(turn: &Turn, role: Unit, e: DayErrands, recalled: bool, c0: Seq<Pos>, c1: Seq<Pos>,
    p0: Plan, p1: Plan) -> bool {
    let retreat = exists|r: Option<RoleCommand>| #[trigger] retreat_result(turn, role, c0, c1, r) && match r {
        Some(c) => plan_pushed(p0, p1, role.id, c),
        None => p1 == p0,
    };
    if !recalled {
        match e.treasure {
            Some(c) => c1 == c0 && plan_pushed(p0, p1, role.id, c),
            None => if e.holds_altar {
                c1 == c0 && p1 == p0
            } else {
                match e.loiter {
                    Some(c) => c1 == c0 && plan_pushed(p0, p1, role.id, c),
                    None => retreat,
                }
            },
        }
    } else {
        retreat
    }
}

/// The shop step: the pioneer is the buyer of the fixed whitelist.
pub open spec fn shop_chain(turn: &Turn, role: Unit, e: DayErrands, recalled: bool, c0: Seq<Pos>, c1: Seq<Pos>,
    p0: Plan, p1: Plan) -> bool {
    let list = spec_fixed_buy_list(turn);
    if list.len() == 0 {
        tail_chain(turn, role, e, recalled, c0, c1, p0, p1)
    } else if shop_stands(turn).contains(role.pos) {
        match spec_buy_first_affordable(turn, e.reserve as int, role, list) {
            Some(c) => c1 == c0 && plan_pushed(p0, p1, role.id, c),
            None => if !recalled { c1 == c0 && p1 == p0 } else { tail_chain(turn, role, e, recalled, c0, c1, p0, p1) },
        }
    } else if !recalled && role.backpack@.len() < role.capacity && shop_stands(turn).len() > 0 {
        ||| (exists|cmd: RoleCommand| #[trigger] plan_pushed(p0, p1, role.id, cmd)
                && walk_result(turn, role, shop_stands(turn), c0, c1, Some(cmd)))
        ||| (walk_result(turn, role, shop_stands(turn), c0, c0, None) && tail_chain(turn, role, e, recalled, c0, c1, p0, p1))
    } else {
        tail_chain(turn, role, e, recalled, c0, c1, p0, p1)
    }
}

/// The pioneer's own medicine errand.
pub open spec fn provision_chain(turn: &Turn, role: Unit, e: DayErrands, recalled: bool, c0: Seq<Pos>, c1: Seq<Pos>,
    p0: Plan, p1: Plan, d0: Option<i64>, d1: Option<i64>) -> bool {
    let shop = d1 == spec_buy_deadline(turn, role) && shop_chain(turn, role, e, recalled, c0, c1, p0, p1);
    if !provision_due(turn, role) {
        shop
    } else if shop_stands(turn).contains(role.pos) {
        d1 == d0 && c1 == c0 && plan_pushed(p0, p1, role.id, RoleCommand::Buy(Item::Medicine, 1))
    } else if !(critically_wounded(role) && !recalled) || shop_stands(turn).len() == 0 {
        shop
    } else {
        ||| (d1 == d0 && exists|cmd: RoleCommand| #[trigger] plan_pushed(p0, p1, role.id, cmd)
                && walk_result(turn, role, shop_stands(turn), c0, c1, Some(cmd)))
        ||| (walk_result(turn, role, shop_stands(turn), c0, c0, None) && shop)
    }
}

/// Vouchers first, then the medicine errand.
pub open spec fn rest_chain(turn: &Turn, role: Unit, e: DayErrands, recalled: bool, c0: Seq<Pos>, c1: Seq<Pos>,
    p0: Plan, p1: Plan, d0: Option<i64>, d1: Option<i64>) -> bool {
    match voucher_job(turn, role) {
        Some((v, t)) => if cheb(role.pos, t) <= 1 {
            d1 == d0 && c1 == c0 && plan_pushed(p0, p1, role.id, RoleCommand::UseAt(v, t))
        } else {
            ||| (d1 == d0 && exists|cmd: RoleCommand| #[trigger] plan_pushed(p0, p1, role.id, cmd)
                    && walk_result(turn, role, spec_neighbours(t).filter(land_pred(turn)), c0, c1, Some(cmd)))
            ||| (walk_result(turn, role, spec_neighbours(t).filter(land_pred(turn)), c0, c0, None)
                && provision_chain(turn, role, e, recalled, c0, c1, p0, p1, d0, d1))
        },
        None => provision_chain(turn, role, e, recalled, c0, c1, p0, p1, d0, d1),
    }
}

fn tail_step(turn: &Turn, role: &Unit, Ghost(e): Ghost<DayErrands>, treasure: Option<RoleCommand>, holds_altar: bool,
    loiter: Option<RoleCommand>, recalled: bool, claimed: &mut Vec<Pos>, plan: &mut Plan)
    requires
        turn.wf(),
        role.wf(),
        treasure == e.treasure,
        holds_altar == e.holds_altar,
        loiter == e.loiter,
    ensures
        distinct_ids(old(plan).commands@) ==> distinct_ids(final(plan).commands@),
        tail_chain(turn, *role, e, recalled, old(claimed)@, final(claimed)@, *old(plan), *final(plan)),
{
    if !recalled {
        match treasure {
            Some(cmd) => {
                plan.push(role.id, cmd);
                return;
            },
            None => {},
        }
        if holds_altar {
            return;
        }
        match loiter {
            Some(cmd) => {
                plan.push(role.id, cmd);
                return;
            },
            None => {},
        }
    }
    let r = retreat_inside(turn, role, claimed);
    match r {
        Some(cmd) => {
            plan.push(role.id, cmd);
        },
        None => {},
    }
    assert(retreat_result(turn, *role, old(claimed)@, claimed@, r));
}

fn shop_step(turn: &Turn, state: &mut BotState, role: &Unit, Ghost(e): Ghost<DayErrands>, reserve: i64,
    treasure: Option<RoleCommand>, holds_altar: bool, loiter: Option<RoleCommand>, recalled: bool, claimed: &mut Vec<Pos>,
    plan: &mut Plan)
    requires
        turn.wf(),
        role.wf(),
        reserve == e.reserve,
        treasure == e.treasure,
        holds_altar == e.holds_altar,
        loiter == e.loiter,
        0 <= e.reserve <= 1_000_000_000,
    ensures
        distinct_ids(old(plan).commands@) ==> distinct_ids(final(plan).commands@),
        shop_chain(turn, *role, e, recalled, old(claimed)@, final(claimed)@, *old(plan), *final(plan)),
        final(state).buy_deadline == spec_buy_deadline(turn, *role),
        day_kept(old(state), final(state)),
        final(state).summon_orders_today == old(state).summon_orders_today,
        final(state).harass_done_today == old(state).harass_done_today,
        final(state).task_active == old(state).task_active,
{
    let list = fixed_buy_list(turn);
    if list.len() > 0 {
        let travel = shop_travel(turn, role.pos);
        state.buy_deadline = Some(turn.round_no + travel);
    } else {
        state.buy_deadline = None;
    }
    if list.len() == 0 {
        tail_step(turn, role, Ghost(e), treasure, holds_altar, loiter, recalled, claimed, plan);
        return;
    }
    if at_shop(turn, role.pos) {
        match buy_first_affordable(turn, reserve, role, &list) {
            Some(cmd) => {
                plan.push(role.id, cmd);
                return;
            },
            None => {},
        }
        if !recalled {
            return;
        }
        tail_step(turn, role, Ghost(e), treasure, holds_altar, loiter, recalled, claimed, plan);
        return;
    }
    if !recalled && !role.backpack_full() && shop_stands_nonempty(turn) {
        let ghost c0 = claimed@;
        match walk_to_shop(turn, role, claimed) {
            Some(cmd) => {
                plan.push(role.id, cmd);
                assert(plan_pushed(*old(plan), *plan, role.id, cmd));
                return;
            },
            None => {},
        }
        tail_step(turn, role, Ghost(e), treasure, holds_altar, loiter, recalled, claimed, plan);
        return;
    }
    tail_step(turn, role, Ghost(e), treasure, holds_altar, loiter, recalled, claimed, plan);
}

fn shop_stands_nonempty(turn: &Turn) -> (r: bool)
    requires
        turn.wf(),
    ensures
        r == (shop_stands(turn).len() > 0),
{
    proof {
        crate::brain::economy::lemma_zone_cells_inner(turn.zones@, ZoneKind::WeaponShop);
    }
    let shops = turn.weapon_shops();
    crate::brain::action::shop::stands_around(turn, &shops).len() > 0
}

fn provision_step(turn: &Turn, state: &mut BotState, role: &Unit, Ghost(e): Ghost<DayErrands>, reserve: i64,
    treasure: Option<RoleCommand>, holds_altar: bool, loiter: Option<RoleCommand>, recalled: bool,
    claimed: &mut Vec<Pos>, plan: &mut Plan)
    requires
        turn.wf(),
        role.wf(),
        reserve == e.reserve,
        treasure == e.treasure,
        holds_altar == e.holds_altar,
        loiter == e.loiter,
        0 <= e.reserve <= 1_000_000_000,
    ensures
        distinct_ids(old(plan).commands@) ==> distinct_ids(final(plan).commands@),
        provision_chain(turn, *role, e, recalled, old(claimed)@, final(claimed)@, *old(plan), *final(plan),
            old(state).buy_deadline, final(state).buy_deadline),
        day_kept(old(state), final(state)),
        final(state).summon_orders_today == old(state).summon_orders_today,
        final(state).harass_done_today == old(state).harass_done_today,
        final(state).task_active == old(state).task_active,
{
    let ghost c0 = claimed@;
    match self_provision(turn, role, claimed, !recalled) {
        Some(cmd) => {
            plan.push(role.id, cmd);
            assert(plan_pushed(*old(plan), *plan, role.id, cmd));
            return;
        },
        None => {},
    }
    shop_step(turn, state, role, Ghost(e), reserve, treasure, holds_altar, loiter, recalled, claimed, plan);
}

fn rest_step(turn: &Turn, state: &mut BotState, role: &Unit, Ghost(e): Ghost<DayErrands>, reserve: i64,
    treasure: Option<RoleCommand>, holds_altar: bool, loiter: Option<RoleCommand>, recalled: bool,
    claimed: &mut Vec<Pos>, plan: &mut Plan)
    requires
        turn.wf(),
        role.wf(),
        reserve == e.reserve,
        treasure == e.treasure,
        holds_altar == e.holds_altar,
        loiter == e.loiter,
        0 <= e.reserve <= 1_000_000_000,
    ensures
        distinct_ids(old(plan).commands@) ==> distinct_ids(final(plan).commands@),
        rest_chain(turn, *role, e, recalled, old(claimed)@, final(claimed)@, *old(plan), *final(plan),
            old(state).buy_deadline, final(state).buy_deadline),
        day_kept(old(state), final(state)),
        final(state).summon_orders_today == old(state).summon_orders_today,
        final(state).harass_done_today == old(state).harass_done_today,
        final(state).task_active == old(state).task_active,
{
    match voucher_flow(turn, role, claimed) {
        Some(cmd) => {
            plan.push(role.id, cmd);
            assert(plan_pushed(*old(plan), *plan, role.id, cmd));
            return;
        },
        None => {},
    }
    provision_step(turn, state, role, Ghost(e), reserve, treasure, holds_altar, loiter, recalled, claimed, plan);
}

/// The day chain, after the task and the heal: summon orders in hand burn,
/// the altar while its window is open, a fresh task point before the recall,
/// then vouchers, medicine, the shop, treasure, loiter and the walk home.
pub open spec fn day_chain(turn: &Turn, role: Unit, e: DayErrands, s0: &BotState, s1: &BotState,
    c0: Seq<Pos>, c1: Seq<Pos>, p0: Plan, p1: Plan) -> bool {
    let recalled = spec_recalled(turn, role);
    let altar = !recalled && e.altar_window;
    let quiet = s1.summon_orders_today == s0.summon_orders_today && s1.harass_done_today == s0.harass_done_today
        && s1.buy_deadline == s0.buy_deadline;
    if s0.task_active && !altar {
        quiet && c1 == c0 && match e.task {
            Some(c) => plan_pushed(p0, p1, role.id, c),
            None => p1 == p0,
        }
    } else if spec_use_medicine(role) is Some {
        quiet && c1 == c0 && plan_pushed(p0, p1, role.id, spec_use_medicine(role)->0)
    } else if spec_summon_burn(s0, role) is Some {
        s1.summon_orders_today == s0.summon_orders_today + 1 && s1.harass_done_today && s1.buy_deadline == s0.buy_deadline
            && c1 == c0 && plan_pushed(p0, p1, role.id, RoleCommand::Use(spec_summon_burn(s0, role)->0))
    } else if altar && e.treasure is Some {
        quiet && c1 == c0 && plan_pushed(p0, p1, role.id, e.treasure->0)
    } else if altar && e.holds_altar {
        quiet && c1 == c0 && p1 == p0
    } else if !recalled && !altar && e.next_task is Some {
        quiet && c1 == c0 && plan_pushed(p0, p1, role.id, e.next_task->0)
    } else {
        s1.summon_orders_today == s0.summon_orders_today && s1.harass_done_today == s0.harass_done_today
            && rest_chain(turn, role, e, recalled, c0, c1, p0, p1, s0.buy_deadline, s1.buy_deadline)
    }
}

/// The pioneer's day: the recall is measured from where it stands; the
/// altar's window takes it off a running session (the session is
/// abandoned); a running session owns it; otherwise heal, burn the summon
/// orders in hand, race for the altar, take a fresh task point before the
/// recall, spend the vouchers, buy its own medicine, shop the whitelist
/// (writing the round it expects at the counter), hunt treasure, loiter at a
/// task point, and finally retreat inside.
pub fn plan_day(turn: &Turn, state: &mut BotState, pioneer: &Unit, claimed: &mut Vec<Pos>, plan: &mut Plan,
    e: DayErrands)
    requires
        turn.wf(),
        pioneer.wf(),
        old(state).wf(),
        0 <= e.reserve <= 1_000_000_000,
    ensures
        distinct_ids(old(plan).commands@) ==> distinct_ids(final(plan).commands@),
        final(state).wf(),
        day_kept(old(state), final(state)),
        final(state).task_active == (old(state).task_active && !(!spec_recalled(turn, *pioneer) && e.altar_window)),
        day_chain(turn, *pioneer, e, old(state), final(state), old(claimed)@, final(claimed)@, *old(plan), *final(plan)),
{
    let ghost eg = e;
    let DayErrands { task, altar_window, treasure, holds_altar, next_task, loiter, reserve } = e;
    let recalled = turn.in_day_round >= recall_round(turn, pioneer);
    let altar_due = !recalled && altar_window;
    if state.task_active && altar_due {
        state.task_active = false;
    }
    if state.task_active {
        match task {
            Some(cmd) => plan.push(pioneer.id, cmd),
            None => {},
        }
        return;
    }
    match use_medicine(pioneer) {
        Some(cmd) => {
            plan.push(pioneer.id, cmd);
            return;
        },
        None => {},
    }
    match burn_summon_order(state, pioneer) {
        Some(cmd) => {
            plan.push(pioneer.id, cmd);
            return;
        },
        None => {},
    }
    if altar_due {
        match treasure {
            Some(cmd) => {
                plan.push(pioneer.id, cmd);
                return;
            },
            None => {},
        }
        if holds_altar {
            return;
        }
    }
    if !recalled && !altar_due {
        match next_task {
            Some(cmd) => {
                plan.push(pioneer.id, cmd);
                return;
            },
            None => {},
        }
    }
    rest_step(turn, state, pioneer, Ghost(eg), reserve, treasure, holds_altar, loiter, recalled, claimed, plan);
}

/// What the pioneer's round does.
pub open spec fn pioneer_round(turn: &Turn, role: Unit, e: DayErrands, s0: &BotState, s1: &BotState, c0: Seq<Pos>,
    c1: Seq<Pos>, p0: Plan, p1: Plan) -> bool {
    if role.health <= 0 {
        *s1 == *s0 && c1 == c0 && p1 == p0
    } else if turn.is_day {
        day_chain(turn, role, e, s0, s1, c0, c1, p0, p1)
    } else {
        match spec_night_medicine(turn, role) {
            Some(c) => state_kept(s0, s1) && c1 == c0 && plan_pushed(p0, p1, role.id, c),
            None => if pioneer_works_task(turn, s0, role) {
                state_kept(s0, s1) && c1 == c0 && task_pushed(p0, p1, role.id, e.task)
            } else {
                repair_outcome(turn, role, s0, s1, c0, c1, p0, p1)
            },
        }
    }
}

/// Plan the pioneer for this round: the day chain or the night chain, picked
/// inside; a dead pioneer gets nothing.
pub fn plan(turn: &Turn, state: &mut BotState, role: &Unit, claimed: &mut Vec<Pos>, plan: &mut Plan, e: DayErrands)
    requires
        turn.wf(),
        role.wf(),
        old(state).wf(),
        0 <= e.reserve <= 1_000_000_000,
    ensures
        distinct_ids(old(plan).commands@) ==> distinct_ids(final(plan).commands@),
        final(state).wf(),
        pioneer_round(turn, *role, e, old(state), final(state), old(claimed)@, final(claimed)@, *old(plan), *final(plan)),
        role.health <= 0 ==> *final(plan) == *old(plan) && final(claimed)@ == old(claimed)@,
        role.health > 0 && turn.is_day ==> day_chain(turn, *role, e, old(state), final(state), old(claimed)@,
            final(claimed)@, *old(plan), *final(plan)),
        role.health > 0 && !turn.is_day ==> match spec_night_medicine(turn, *role) {
            Some(c) => state_kept(old(state), final(state)) && final(claimed)@ == old(claimed)@
                && plan_pushed(*old(plan), *final(plan), role.id, c),
            None => if pioneer_works_task(turn, old(state), *role) {
                state_kept(old(state), final(state)) && final(claimed)@ == old(claimed)@
                    && task_pushed(*old(plan), *final(plan), role.id, e.task)
            } else {
                repair_outcome(turn, *role, old(state), final(state), old(claimed)@, final(claimed)@,
                    *old(plan), *final(plan))
            },
        },
{
    if !role.alive() {
        return;
    }
    if turn.is_day {
        plan_day(turn, state, role, claimed, plan, e);
    } else {
        plan_night(turn, state, role, claimed, plan, e.task);
    }
}

/// A spare controller's round: nothing by day (the backstop owns it), the
/// pioneer's chain by night.
pub fn plan_spare(turn: &Turn, state: &mut BotState, role: &Unit, claimed: &mut Vec<Pos>, plan: &mut Plan,
    e: DayErrands)
    requires
        turn.wf(),
        role.wf(),
        old(state).wf(),
        0 <= e.reserve <= 1_000_000_000,
    ensures
        distinct_ids(old(plan).commands@) ==> distinct_ids(final(plan).commands@),
        final(state).wf(),
        turn.is_day ==> *final(plan) == *old(plan) && final(claimed)@ == old(claimed)@ && *final(state) == *old(state),
        !turn.is_day && role.health <= 0 ==> *final(plan) == *old(plan) && final(claimed)@ == old(claimed)@,
        !turn.is_day && role.health > 0 ==> match spec_night_medicine(turn, *role) {
            Some(c) => state_kept(old(state), final(state)) && final(claimed)@ == old(claimed)@
                && plan_pushed(*old(plan), *final(plan), role.id, c),
            None => if pioneer_works_task(turn, old(state), *role) {
                state_kept(old(state), final(state)) && final(claimed)@ == old(claimed)@
                    && task_pushed(*old(plan), *final(plan), role.id, e.task)
            } else {
                repair_outcome(turn, *role, old(state), final(state), old(claimed)@, final(claimed)@,
                    *old(plan), *final(plan))
            },
        },
{
    if turn.is_day {
        return;
    }
    self::plan(turn, state, role, claimed, plan, e);
}

} // verus!
