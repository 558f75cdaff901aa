use coregeek::brain::night::plan_spare;
use coregeek::brain::Plan;
use coregeek::model::{Item, Pos, Team, Turn, Unit, UnitKind};
use coregeek::protocol::RoleCommand;
use coregeek::state::BotState;

fn pos(x: i32, y: i32) -> Pos {
    Pos { x, y }
}

fn cheb(a: Pos, b: Pos) -> i32 {
    (a.x - b.x).abs().max((a.y - b.y).abs())
}

fn unit(id: i64, kind: UnitKind, at: Pos, pack: Vec<Item>) -> Unit {
    Unit {
        id,
        kind,
        pos: at,
        health: 1000,
        level: 1,
        cooldown: 0,
        attack_power: 0,
        attack_range: 0,
        capacity: 100,
        backpack: pack,
    }
}

fn wall_at(id: i64, at: Pos, hp: i64) -> Unit {
    let mut wall = unit(id, UnitKind::Wall, at, Vec::new());
    wall.health = hp;
    wall.capacity = 0;
    wall
}

/// A night board of day 1 with the station at (10,24).
fn night_board(round_no: i64, roles: Vec<Unit>) -> Turn {
    let mut all = vec![unit(10001, UnitKind::Station, pos(10, 24), Vec::new())];
    all.extend(roles);
    Turn {
        round_no,
        day: 1,
        in_day_round: round_no - 1,
        is_day: false,
        width: 41,
        height: 32,
        team_type: Team::Challenger,
        gold: 0,
        total_score: 0,
        ours: all,
        enemy: Vec::new(),
        robots: Vec::new(),
        zones: Vec::new(),
        weapon_shop: Vec::new(),
        vendor_prices: Vec::new(),
    }
}

fn command_for(plan: &Plan, id: i64) -> Option<RoleCommand> {
    plan.commands.iter().find(|(who, _)| *who == id).map(|(_, cmd)| cmd.clone())
}

fn spare_plan(turn: &Turn, state: &mut BotState, id: i64, task: Option<RoleCommand>) -> Plan {
    let mut claimed = Vec::new();
    let mut plan = Plan::new();
    let role = turn.role_by_id(id).expect("the spare exists").clone();
    plan_spare(turn, state, &role, &mut claimed, &mut plan, task);
    plan
}

#[test]
fn night_the_repair_kit_outranks_the_task() {
    let turn = night_board(75, vec![unit(20001, UnitKind::Pioneer, pos(20, 10), vec![Item::WallFixer])]);
    assert!(!turn.is_day);
    let mut state = BotState::default();
    state.task_active = true;
    let task = Some(RoleCommand::Move(pos(21, 9)));
    let plan = spare_plan(&turn, &mut state, 20001, task);
    let cmd = command_for(&plan, 20001).expect("the repair duty walks");
    let station = pos(10, 24);
    match cmd {
        RoleCommand::Move(to) => assert!(
            cheb(to, station) < cheb(pos(20, 10), station),
            "the step closes on the base, not on the task point"
        ),
        other => panic!("expected a move, got {:?}", other),
    }
}

#[test]
fn night_the_mender_mends_the_weakest_adjacent_wall() {
    let turn = night_board(
        75,
        vec![
            unit(20001, UnitKind::Pioneer, pos(9, 22), vec![Item::WallFixer]),
            wall_at(20010, pos(9, 21), 700),
            wall_at(20011, pos(10, 21), 400),
        ],
    );
    let mut state = BotState::default();
    let plan = spare_plan(&turn, &mut state, 20001, None);
    let cmd = command_for(&plan, 20001).expect("the mender mends");
    assert_eq!(cmd, RoleCommand::UseAt(Item::WallFixer, pos(10, 21)), "the weakest wall first");
}

#[test]
fn night_a_task_runner_without_a_kit_follows_the_task() {
    let turn = night_board(75, vec![unit(20001, UnitKind::Pioneer, pos(20, 10), Vec::new())]);
    let mut state = BotState::default();
    state.task_active = true;
    let task = RoleCommand::Move(pos(21, 9));
    let plan = spare_plan(&turn, &mut state, 20001, Some(task.clone()));
    assert_eq!(command_for(&plan, 20001), Some(task));
}
