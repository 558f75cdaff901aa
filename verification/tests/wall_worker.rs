use coregeek::brain::action::base_layout::{operator_cell, wall_build_order};
use coregeek::brain::day::round_context;
use coregeek::brain::role::economy_worker::{SellTrigger, VEIN_COLLECT_LIMIT};
use coregeek::brain::role::wall_worker::{plan_day, plan_night, safe_gap, sell_trigger};
use coregeek::brain::route::trip_rounds;
use coregeek::brain::Plan;
use coregeek::model::{Item, Pos, Robot, RobotKind, Team, Turn, Unit, UnitKind, Zone, ZoneKind};
use coregeek::protocol::RoleCommand;
use coregeek::state::BotState;

fn pos(x: i32, y: i32) -> Pos {
    Pos { x, y }
}

fn cheb(a: Pos, b: Pos) -> i64 {
    (a.x - b.x).abs().max((a.y - b.y).abs()) as i64
}

fn unit(id: i64, kind: UnitKind, at: Pos, pack: Vec<Item>) -> Unit {
    Unit {
        id,
        kind,
        pos: at,
        health: 1000,
        level: 1,
        cooldown: 0,
        attack_power: 0,
        attack_range: 0,
        capacity: 100,
        backpack: pack,
    }
}

fn stones(n: usize) -> Vec<Item> {
    vec![Item::Stone; n]
}

fn zone(x: i32, y: i32, kind: ZoneKind) -> Zone {
    Zone { pos: pos(x, y), kind }
}

/// Day 1 with the station at (10,24) on the 41x32 map: `in_day_round` is
/// `round_no - 1`, day rounds below 70.
fn board(round_no: i64, roles: Vec<Unit>, zones: Vec<Zone>, robots: Vec<Robot>, gold: i64) -> Turn {
    let mut all = vec![unit(10001, UnitKind::Station, pos(10, 24), Vec::new())];
    all.extend(roles);
    let in_day_round = round_no - 1;
    Turn {
        round_no,
        day: 1,
        in_day_round,
        is_day: in_day_round < 70,
        width: 41,
        height: 32,
        team_type: Team::Challenger,
        gold,
        total_score: 0,
        ours: all,
        enemy: Vec::new(),
        robots,
        zones,
        weapon_shop: Vec::new(),
        vendor_prices: Vec::new(),
    }
}

fn command_for(plan: &Plan, id: i64) -> Option<RoleCommand> {
    plan.commands.iter().find(|(who, _)| *who == id).map(|(_, cmd)| cmd.clone())
}

/// Drive A (10002) through the round context and its day chain.
fn plan_for(turn: &Turn, state: &mut BotState, owned: &[i64]) -> Option<RoleCommand> {
    let ctx = round_context(turn, state);
    let mut claimed = Vec::new();
    let mut plan = Plan::new();
    let role = turn.role_by_id(10002).expect("worker A exists").clone();
    plan_day(turn, state, &role, &ctx, owned, &mut claimed, &mut plan);
    command_for(&plan, 10002)
}

fn hits(state: &BotState, p: Pos) -> Option<i64> {
    state.vein_hits.iter().find(|(q, _)| *q == p).map(|(_, n)| *n)
}

fn move_target(cmd: RoleCommand) -> Pos {
    match cmd {
        RoleCommand::Move(to) => to,
        other => panic!("expected a move, got {:?}", other),
    }
}

#[test]
fn the_wall_goes_up_in_the_fixed_order() {
    let turn = board(5, vec![unit(10002, UnitKind::Worker, pos(12, 22), stones(6))], Vec::new(), Vec::new(), 0);
    let mut state = BotState::default();
    let cmd = plan_for(&turn, &mut state, &[]).expect("a wall is placed");
    assert_eq!(cmd, RoleCommand::Build(pos(13, 21), UnitKind::Wall), "front column first");
    assert_eq!(state.walls_built_today, 1);
    assert!(state.walled_cells_today.contains(&pos(13, 21)));
}

#[test]
fn the_quota_latches_one_stone_vein_and_releases_at_ten() {
    let zones = vec![zone(14, 24, ZoneKind::Mine(Item::Stone)), zone(16, 24, ZoneKind::Mine(Item::Stone))];
    let turn = board(5, vec![unit(10002, UnitKind::Worker, pos(13, 24), Vec::new())], zones, Vec::new(), 0);
    let mut state = BotState::default();
    let cmd = plan_for(&turn, &mut state, &[]).expect("adjacent stone is dug");
    assert_eq!(cmd, RoleCommand::Collect(pos(14, 24)), "the pick takes the nearer vein");
    assert_eq!(state.wall_vein_latch, Some(pos(14, 24)));
    assert_eq!(hits(&state, pos(14, 24)), Some(1));
    assert_eq!(state.vein_latch, None, "B's latch is a separate field");

    let mut state = BotState::default();
    state.wall_vein_latch = Some(pos(14, 24));
    state.vein_hits.push((pos(14, 24), VEIN_COLLECT_LIMIT));
    let cmd = plan_for(&turn, &mut state, &[]).expect("the next vein is walked to");
    move_target(cmd);
    assert_eq!(state.wall_vein_latch, Some(pos(16, 24)));
}

#[test]
fn the_post_deadline_is_the_persons_own_walk() {
    let turn = board(51, vec![unit(10002, UnitKind::Worker, pos(20, 10), Vec::new())], Vec::new(), Vec::new(), 0);
    let mut state = BotState::default();
    let to = move_target(plan_for(&turn, &mut state, &[]).expect("A walks to the post"));
    let post = operator_cell(&turn).expect("the operator cell");
    assert_eq!(post, pos(9, 23));
    assert!(cheb(to, post) < trip_rounds(&turn, pos(20, 10), post), "the step closes on the operator cell");
}

#[test]
fn the_ring_tail_outranks_the_post_guard() {
    let turn = board(51, vec![unit(10002, UnitKind::Worker, pos(14, 26), stones(6))], Vec::new(), Vec::new(), 0);
    let mut state = BotState::default();
    let cmd = plan_for(&turn, &mut state, &[]).expect("the carrier keeps building");
    assert_eq!(cmd, RoleCommand::Build(pos(13, 25), UnitKind::Wall), "still in the fixed order");
}

fn pocket(round_no: i64) -> Turn {
    let mut roles: Vec<Unit> = [pos(19, 19), pos(19, 20), pos(19, 21), pos(20, 19), pos(20, 21), pos(21, 19), pos(21, 21)]
        .iter()
        .enumerate()
        .map(|(index, at)| unit(20000 + index as i64, UnitKind::Wall, *at, Vec::new()))
        .collect();
    roles.push(unit(10002, UnitKind::Worker, pos(22, 20), stones(6)));
    roles.push(unit(10003, UnitKind::Worker, pos(20, 20), Vec::new()));
    board(round_no, roles, Vec::new(), Vec::new(), 0)
}

#[test]
fn the_hard_seal_overrides_the_trap_veto() {
    let before = pocket(61);
    let mut state = BotState::default();
    let _ctx = round_context(&before, &mut state);
    assert!(
        !safe_gap(&before, &state, &[], pos(21, 20)),
        "the one cell that lets the idle role home is refused before the hard seal"
    );
    let after = pocket(67);
    let mut state = BotState::default();
    let _ctx = round_context(&after, &mut state);
    assert!(safe_gap(&after, &state, &[], pos(21, 20)), "past the hard seal the ring closes anyway");
}

#[test]
fn the_tower_outranks_the_wall() {
    let turn = board(5, vec![unit(10002, UnitKind::Worker, pos(8, 22), stones(6))], Vec::new(), Vec::new(), 30);
    let mut state = BotState::default();
    let cmd = plan_for(&turn, &mut state, &[]).expect("the tower is built");
    assert_eq!(cmd, RoleCommand::Build(pos(9, 22), UnitKind::Rocket), "the L's first site");
}

#[test]
fn surplus_mining_is_bound_by_the_post_trip() {
    let ring: Vec<Unit> = wall_build_order(&board(5, Vec::new(), Vec::new(), Vec::new(), 0))
        .iter()
        .enumerate()
        .map(|(index, at)| unit(20000 + index as i64, UnitKind::Wall, *at, Vec::new()))
        .collect();
    let mut roles = ring;
    roles.push(unit(10002, UnitKind::Worker, pos(10, 20), Vec::new()));
    let zones = vec![zone(20, 10, ZoneKind::Mine(Item::Copper))];

    let turn = board(21, roles.clone(), zones.clone(), Vec::new(), 0);
    let mut state = BotState::default();
    plan_for(&turn, &mut state, &[]);
    assert_eq!(state.wall_vein_latch, Some(pos(20, 10)), "early in the day the surplus vein is worth the walk");

    let turn = board(41, roles, zones, Vec::new(), 0);
    let mut state = BotState::default();
    plan_for(&turn, &mut state, &[]);
    assert_eq!(state.wall_vein_latch, None, "the same vein no longer fits");
}

fn cashout_board(round_no: i64) -> Turn {
    board(
        round_no,
        vec![unit(10002, UnitKind::Worker, pos(9, 23), vec![Item::Copper; 2])],
        vec![zone(4, 23, ZoneKind::Vendor)],
        Vec::new(),
        0,
    )
}

fn trigger_at(round_no: i64) -> Option<SellTrigger> {
    let turn = cashout_board(round_no);
    let mut state = BotState::default();
    let ctx = round_context(&turn, &mut state);
    let role = turn.role_by_id(10002).expect("A exists").clone();
    sell_trigger(&turn, &state, &role, ctx.stone_demand)
}

#[test]
fn the_cashout_fires_only_inside_its_band() {
    assert_eq!(trigger_at(21), None);
    assert_eq!(trigger_at(44), Some(SellTrigger::DuskCashout));
    assert_eq!(trigger_at(51), None);
}

#[test]
fn a_covered_quota_turns_a_to_the_ore() {
    let turn = board(
        5,
        vec![
            unit(10002, UnitKind::Worker, pos(14, 24), Vec::new()),
            unit(10003, UnitKind::Worker, pos(20, 20), stones(16)),
        ],
        vec![zone(14, 25, ZoneKind::Mine(Item::Stone)), zone(14, 23, ZoneKind::Mine(Item::Copper))],
        Vec::new(),
        0,
    );
    let mut state = BotState::default();
    let cmd = plan_for(&turn, &mut state, &[10003]).expect("A digs the copper");
    assert_eq!(cmd, RoleCommand::Collect(pos(14, 23)), "the stone vein is skipped");
    assert_eq!(state.wall_vein_latch, Some(pos(14, 23)));
}

fn tower(id: i64, kind: UnitKind, at: Pos, cooldown: i64) -> Unit {
    let mut t = unit(id, kind, at, Vec::new());
    t.attack_power = 10;
    t.attack_range = 10;
    t.cooldown = cooldown;
    t.capacity = 0;
    t
}

fn robot(id: i64, at: Pos, kind: RobotKind, health: i64) -> Robot {
    Robot { id, kind, pos: at, health, target_team: Team::Challenger, dizzy: false }
}

fn night_plan_for(turn: &Turn, state: &mut BotState) -> Plan {
    let mut claimed = Vec::new();
    let mut plan = Plan::new();
    let role = turn.role_by_id(10002).expect("worker A exists").clone();
    plan_night(turn, state, &role, &mut claimed, &mut plan);
    plan
}

#[test]
fn one_operator_fires_the_whole_l() {
    let turn = board(
        75,
        vec![
            unit(10002, UnitKind::Worker, pos(9, 23), Vec::new()),
            tower(30001, UnitKind::Rocket, pos(9, 22), 0),
            tower(30002, UnitKind::Railgun, pos(10, 22), 0),
            tower(30003, UnitKind::Gatling, pos(9, 24), 0),
        ],
        Vec::new(),
        vec![
            robot(90001, pos(12, 23), RobotKind::Large, 500),
            robot(90002, pos(11, 22), RobotKind::Large, 500),
            robot(90003, pos(11, 24), RobotKind::Large, 500),
        ],
        0,
    );
    assert!(!turn.is_day);
    let mut state = BotState::default();
    let plan = night_plan_for(&turn, &mut state);
    for id in [30001i64, 30002, 30003] {
        match command_for(&plan, id) {
            Some(RoleCommand::Attack(cells)) => assert!(!cells.is_empty(), "every gun of the L fires"),
            other => panic!("tower {} did not fire: {:?}", id, other),
        }
    }
    assert!(command_for(&plan, 10002).is_none(), "the salvo costs the operator no personal command");
}

#[test]
fn a_live_wave_recalls_the_operator() {
    let turn = board(
        75,
        vec![unit(10002, UnitKind::Worker, pos(20, 10), Vec::new()), tower(30001, UnitKind::Rocket, pos(9, 22), 0)],
        vec![zone(21, 10, ZoneKind::Mine(Item::Copper))],
        vec![robot(90001, pos(12, 23), RobotKind::Large, 500)],
        0,
    );
    let mut state = BotState::default();
    let plan = night_plan_for(&turn, &mut state);
    let to = move_target(command_for(&plan, 10002).expect("A walks home"));
    let post = operator_cell(&turn).expect("the operator cell");
    assert!(cheb(to, post) < trip_rounds(&turn, pos(20, 10), post), "the step closes on the post");
    assert!(command_for(&plan, 30001).is_none(), "the gun is out of reach and stays silent");
}

#[test]
fn the_swept_night_sends_a_to_the_quota_stone() {
    let turn = board(
        75,
        vec![unit(10002, UnitKind::Worker, pos(9, 23), Vec::new()), tower(30001, UnitKind::Rocket, pos(9, 22), 0)],
        vec![zone(14, 24, ZoneKind::Mine(Item::Stone)), zone(16, 24, ZoneKind::Mine(Item::Copper))],
        Vec::new(),
        0,
    );
    let mut state = BotState::default();
    let plan = night_plan_for(&turn, &mut state);
    move_target(command_for(&plan, 10002).expect("A mines the swept night"));
    assert_eq!(state.wall_vein_latch, Some(pos(14, 24)), "quota stone first, on the latch");
    assert!(command_for(&plan, 30001).is_none(), "nothing to shoot at");
}

#[test]
fn a_dying_operator_holds_inside_instead_of_manning() {
    let mut a = unit(10002, UnitKind::Worker, pos(9, 23), Vec::new());
    a.health = 40;
    let turn = board(
        75,
        vec![a, tower(30001, UnitKind::Rocket, pos(9, 22), 0)],
        Vec::new(),
        vec![robot(90001, pos(11, 24), RobotKind::Small, 100)],
        0,
    );
    let mut state = BotState::default();
    let plan = night_plan_for(&turn, &mut state);
    assert!(command_for(&plan, 30001).is_none(), "the gun stays dark");
    assert!(command_for(&plan, 10002).is_none(), "already inside: hold, do not pace");
    assert!(state.withdraw_holdout.contains(&10002), "the hysteresis set keeps A off the guns");
}

#[test]
fn a_reloading_gun_holds_the_operator_at_the_post() {
    let turn = board(
        75,
        vec![unit(10002, UnitKind::Worker, pos(9, 23), Vec::new()), tower(30001, UnitKind::Rocket, pos(9, 22), 5)],
        vec![zone(14, 24, ZoneKind::Mine(Item::Stone))],
        vec![robot(90001, pos(12, 23), RobotKind::Large, 500)],
        0,
    );
    let mut state = BotState::default();
    let plan = night_plan_for(&turn, &mut state);
    assert!(command_for(&plan, 30001).is_none(), "the gun is reloading");
    assert!(command_for(&plan, 10002).is_none(), "at the post with a live wave: holding is the plan");
}
