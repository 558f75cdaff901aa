use coregeek::brain::action::shop::wall_fixer_surplus;
use coregeek::brain::role::pioneer::{plan, DayErrands};
use coregeek::brain::Plan;
use coregeek::model::{Item, Pos, Robot, RobotKind, Team, Turn, Unit, UnitKind, Zone, ZoneKind};
use coregeek::protocol::RoleCommand;
use coregeek::state::BotState;

fn pos(x: i32, y: i32) -> Pos {
    Pos { x, y }
}

fn cheb(a: Pos, b: Pos) -> i32 {
    (a.x - b.x).abs().max((a.y - b.y).abs())
}

fn unit(id: i64, kind: UnitKind, at: Pos, pack: Vec<Item>) -> Unit {
    Unit {
        id,
        kind,
        pos: at,
        health: 1000,
        level: 1,
        cooldown: 0,
        attack_power: 0,
        attack_range: 0,
        capacity: 100,
        backpack: pack,
    }
}

fn wall_at(id: i64, at: Pos, hp: i64) -> Unit {
    let mut wall = unit(id, UnitKind::Wall, at, Vec::new());
    wall.health = hp;
    wall.capacity = 0;
    wall
}

fn robot(id: i64, at: Pos, kind: RobotKind, health: i64) -> Robot {
    Robot { id, kind, pos: at, health, target_team: Team::Challenger, dizzy: false }
}

fn shop_list() -> Vec<(Item, i64)> {
    vec![
        (Item::StationUpgradeVoucher1, 2250),
        (Item::WeaponUpgradeVoucher1, 1500),
        (Item::WallUpgradeVoucher1, 500),
        (Item::LargeRobotSummonOrder, 300),
        (Item::Bomb, 150),
        (Item::WallFixer, 300),
        (Item::Medicine, 100),
    ]
}

/// Day 1 of a board with the station at (10,24): day rounds while
/// `in_day_round < 70`, the night after.
fn board(round_no: i64, roles: Vec<Unit>, zones: Vec<Zone>, robots: Vec<Robot>, gold: i64) -> Turn {
    let mut all = vec![unit(10001, UnitKind::Station, pos(10, 24), Vec::new())];
    all.extend(roles);
    let in_day_round = round_no - 1;
    Turn {
        round_no,
        day: 1,
        in_day_round,
        is_day: in_day_round < 70,
        width: 41,
        height: 32,
        team_type: Team::Challenger,
        gold,
        total_score: 0,
        ours: all,
        enemy: Vec::new(),
        robots,
        zones,
        weapon_shop: shop_list(),
        vendor_prices: Vec::new(),
    }
}

fn night_board(round_no: i64, roles: Vec<Unit>) -> Turn {
    board(round_no, roles, Vec::new(), Vec::new(), 0)
}

fn errands(task: Option<RoleCommand>) -> DayErrands {
    DayErrands {
        task,
        altar_window: false,
        treasure: None,
        holds_altar: false,
        next_task: None,
        loiter: None,
        reserve: 0,
    }
}

fn command_for(p: &Plan, id: i64) -> Option<RoleCommand> {
    p.commands.iter().find(|(who, _)| *who == id).map(|(_, cmd)| cmd.clone())
}

fn plan_for(turn: &Turn, state: &mut BotState, id: i64, task: Option<RoleCommand>) -> Plan {
    let mut claimed = Vec::new();
    let mut out = Plan::new();
    let role = turn.role_by_id(id).expect("the role exists").clone();
    plan(turn, state, &role, &mut claimed, &mut out, errands(task));
    out
}

fn step_target(cmd: RoleCommand) -> Pos {
    match cmd {
        RoleCommand::Move(to) => to,
        other => panic!("expected a move, got {:?}", other),
    }
}

#[test]
fn pioneer_the_repair_kit_outranks_the_task() {
    let turn = night_board(75, vec![unit(20001, UnitKind::Pioneer, pos(20, 10), vec![Item::WallFixer])]);
    assert!(!turn.is_day);
    let mut state = BotState::default();
    state.task_active = true;
    let out = plan_for(&turn, &mut state, 20001, Some(RoleCommand::Move(pos(21, 9))));
    let to = step_target(command_for(&out, 20001).expect("the repair duty walks"));
    let station = pos(10, 24);
    assert!(cheb(to, station) < cheb(pos(20, 10), station), "the step closes on the base, not on the task point");
}

#[test]
fn pioneer_the_mender_mends_the_weakest_adjacent_wall() {
    let turn = night_board(
        75,
        vec![
            unit(20001, UnitKind::Pioneer, pos(9, 22), vec![Item::WallFixer]),
            wall_at(20010, pos(9, 21), 700),
            wall_at(20011, pos(10, 21), 400),
        ],
    );
    let mut state = BotState::default();
    let out = plan_for(&turn, &mut state, 20001, None);
    let cmd = command_for(&out, 20001).expect("the mender mends");
    assert_eq!(cmd, RoleCommand::UseAt(Item::WallFixer, pos(10, 21)), "the weakest wall first");
}

#[test]
fn the_wounded_task_runner_drinks_first() {
    let mut wounded = unit(20001, UnitKind::Pioneer, pos(9, 22), vec![Item::Medicine]);
    wounded.health = 50;
    let turn = night_board(75, vec![wounded]);
    let mut state = BotState::default();
    state.task_active = true;
    let out = plan_for(&turn, &mut state, 20001, Some(RoleCommand::Move(pos(9, 21))));
    let cmd = command_for(&out, 20001).expect("the potion goes down");
    assert_eq!(cmd, RoleCommand::Use(Item::Medicine));
}

#[test]
fn the_backup_switch_holds_the_pioneer_inside_while_robots_live() {
    let turn = board(
        75,
        vec![unit(20001, UnitKind::Pioneer, pos(20, 10), Vec::new())],
        Vec::new(),
        vec![robot(30001, pos(12, 23), RobotKind::Large, 500)],
        0,
    );
    assert!(!turn.is_day);
    let mut state = BotState::default();
    state.task_active = true;
    state.pioneer_night_backup = true;
    let out = plan_for(&turn, &mut state, 20001, None);
    let to = step_target(
        command_for(&out, 20001).expect("the backup walks home, it does not sit at the task point"),
    );
    let station = pos(10, 24);
    assert!(cheb(to, station) < cheb(pos(20, 10), station), "the backup closes on the ring while the wave lives");
}

#[test]
fn the_default_night_keeps_the_session_holding() {
    let turn = board(
        75,
        vec![unit(20001, UnitKind::Pioneer, pos(20, 10), Vec::new())],
        Vec::new(),
        vec![robot(30001, pos(12, 23), RobotKind::Large, 500)],
        0,
    );
    let mut state = BotState::default();
    state.task_active = true;
    let out = plan_for(&turn, &mut state, 20001, None);
    assert!(
        command_for(&out, 20001).is_none(),
        "the bare session holds the pioneer at its point — no backup detour"
    );
}

fn day_shop_board(round_no: i64, day: i64, gold: i64, pack: Vec<Item>) -> Turn {
    let mut turn = board(
        round_no,
        vec![unit(20001, UnitKind::Pioneer, pos(20, 10), pack)],
        vec![Zone { pos: pos(30, 8), kind: ZoneKind::WeaponShop }],
        Vec::new(),
        gold,
    );
    turn.day = day;
    turn
}

#[test]
fn the_idle_pioneer_walks_to_the_shop_and_syncs_the_deadline() {
    let turn = day_shop_board(10, 1, 0, Vec::new());
    assert!(turn.is_day);
    let mut state = BotState::default();
    let out = plan_for(&turn, &mut state, 20001, None);
    let to = step_target(command_for(&out, 20001).expect("the buyer walks"));
    let shop = pos(30, 8);
    assert!(cheb(to, shop) < cheb(pos(20, 10), shop), "the step closes on the counter");
    let deadline = state.buy_deadline.expect("the sync slot is written");
    assert!(deadline > turn.round_no, "the deadline is the walk away: {}", deadline);
}

#[test]
fn the_counter_buys_the_whitelist_head() {
    let mut buyer = unit(20001, UnitKind::Pioneer, pos(30, 7), Vec::new());
    buyer.health = 200;
    let turn = board(
        10,
        vec![buyer],
        vec![Zone { pos: pos(30, 8), kind: ZoneKind::WeaponShop }],
        Vec::new(),
        5000,
    );
    let mut state = BotState::default();
    let out = plan_for(&turn, &mut state, 20001, None);
    let cmd = command_for(&out, 20001).expect("the buyer buys");
    match cmd {
        RoleCommand::Buy(item, _) => {
            assert_eq!(item, Item::StationUpgradeVoucher1, "the base voucher heads the whitelist")
        }
        other => panic!("expected a purchase, got {:?}", other),
    }
}

#[test]
fn the_fixer_cap_follows_the_day() {
    let d3 = day_shop_board(3, 1, 0, vec![Item::WallFixer, Item::WallFixer]);
    let fixer = wall_fixer_surplus(&d3).expect("below the cap there is surplus to convert");
    assert_eq!(fixer.num, 3, "day <= 5 caps at 5, two are held");
    let d6 = day_shop_board(10, 6, 0, vec![Item::WallFixer, Item::WallFixer]);
    let fixer = wall_fixer_surplus(&d6).expect("below the cap there is surplus to convert");
    assert_eq!(fixer.num, 8, "day 6+ caps at 10, two are held");
}
