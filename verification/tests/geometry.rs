use coregeek::brain::action::base_layout::entrance_cells;
use coregeek::brain::action::geometry::{night_home, ring_open_cells, roles_can_reach, wall_gaps, wall_would_trap};
use coregeek::brain::role::Roles;
use coregeek::brain::{can_reach_any, interior_cells};
use coregeek::model::{Pos, Team, Turn, Unit, UnitKind};
use coregeek::state::BotState;

fn pos(x: i32, y: i32) -> Pos {
    Pos { x, y }
}

fn unit(id: i64, kind: UnitKind, at: Pos) -> Unit {
    Unit {
        id,
        kind,
        pos: at,
        health: 1000,
        level: 1,
        cooldown: 0,
        attack_power: 0,
        attack_range: 0,
        capacity: 100,
        backpack: Vec::new(),
    }
}

/// The day-1 opening: station at (10,24) on the 41x32 map, plus whatever
/// walls and roles the test asks for.
fn board(extra: Vec<Unit>) -> Turn {
    let mut roles = vec![unit(10001, UnitKind::Station, pos(10, 24))];
    roles.extend(extra);
    Turn {
        round_no: 5,
        day: 1,
        in_day_round: 4,
        is_day: true,
        width: 41,
        height: 32,
        team_type: Team::Challenger,
        gold: 0,
        total_score: 0,
        ours: roles,
        enemy: Vec::new(),
        robots: Vec::new(),
        zones: Vec::new(),
        weapon_shop: Vec::new(),
        vendor_prices: Vec::new(),
    }
}

#[test]
fn the_gap_list_is_the_fixed_order_without_the_entrance() {
    let turn = board(Vec::new());
    let state = BotState::default();
    let gaps = wall_gaps(&turn, &state);
    assert_eq!(gaps.len(), 16, "the whole ring minus the entrance four");
    assert_eq!(gaps[0], pos(13, 21), "the front column goes up first");
    assert_eq!(gaps[5], pos(13, 26));
    assert_eq!(gaps[6], pos(12, 26), "then the top row, walking back");
    assert_eq!(gaps[10], pos(8, 26));
    assert_eq!(gaps[11], pos(8, 21), "then the bottom row, walking out");
    assert_eq!(gaps[15], pos(12, 21), "the order's tail is the far corner");
    let entrance = entrance_cells(&turn);
    assert!(gaps.iter().all(|gap| !entrance.contains(gap)), "the permanent entrance is never a gap");
    assert_eq!(ring_open_cells(&turn, &state), 16, "an empty board owes exactly the 16 wall cells");
}

#[test]
fn built_cells_leave_the_list_in_order_and_the_debt_counts_bodies() {
    let mut roles: Vec<Unit> = (21..=26).map(|y| unit(20000 + y as i64, UnitKind::Wall, pos(13, y))).collect();
    roles.push(unit(10002, UnitKind::Worker, pos(12, 26)));
    let turn = board(roles);
    let state = BotState::default();
    let gaps = wall_gaps(&turn, &state);
    assert!(!gaps.contains(&pos(12, 26)), "the cell under the worker is not offerable this round");
    assert_eq!(gaps[0], pos(11, 26), "the order resumes behind it");
    assert_eq!(gaps.len(), 9, "16 - 6 built - 1 occupied");
    assert_eq!(ring_open_cells(&turn, &state), 10, "the debt still counts the occupied cell");
}

fn pocketed_idle_role(seal: bool) -> Turn {
    let mut cells = vec![pos(19, 19), pos(19, 20), pos(19, 21), pos(20, 19), pos(20, 21), pos(21, 19), pos(21, 21)];
    if seal {
        cells.push(pos(21, 20));
    }
    let mut roles: Vec<Unit> =
        cells.iter().enumerate().map(|(index, at)| unit(20000 + index as i64, UnitKind::Wall, *at)).collect();
    roles.push(unit(10002, UnitKind::Pioneer, pos(20, 20)));
    board(roles)
}

#[test]
fn geometry_a_wall_that_seals_an_idle_role_out_is_refused() {
    let turn = pocketed_idle_role(false);
    let state = BotState::default();
    let idle = turn.role_by_id(10002).expect("the idle role exists").clone();
    let roles = Roles::of(&turn);
    assert_eq!(
        night_home(&turn, &roles, idle.id),
        interior_cells(&turn),
        "test setup: this role mans no gun — its home is the ring's inside"
    );
    assert!(
        can_reach_any(&turn, &idle, &interior_cells(&turn)),
        "test setup: the role must be able to reach home BEFORE the wall"
    );
    assert!(roles_can_reach(&turn), "test setup: nobody is cut off yet, so the wall step is running");
    assert!(
        wall_would_trap(&turn, &state, pos(21, 20), &[]),
        "the one cell that lets the idle role home was about to be walled over"
    );
}

#[test]
fn geometry_an_idle_role_already_sealed_out_stops_the_wall_line() {
    let sealed = pocketed_idle_role(true);
    assert!(!roles_can_reach(&sealed), "wall building went ahead with a role sealed out of its own base");
}

#[test]
fn geometry_a_wall_nobody_is_cut_off_by_is_allowed() {
    let turn = board(vec![unit(10002, UnitKind::Worker, pos(12, 24))]);
    let state = BotState::default();
    assert!(roles_can_reach(&turn), "a role standing inside the base is not a veto");
    assert!(
        !wall_would_trap(&turn, &state, pos(20, 20), &[]),
        "a wall in the open, far from every role's way home, traps nobody"
    );
}
