use coregeek::brain::action::geometry::ring_cells;
use coregeek::brain::day::{night_goal, roles_can_reach, wall_would_trap};
use coregeek::brain::{can_reach_any, interior_cells};
use coregeek::model::{footprint_distance, station_footprint, Pos, Team, Turn, Unit, UnitKind};
use coregeek::state::BotState;

fn pos(x: i32, y: i32) -> Pos {
    Pos { x, y }
}

fn unit(id: i64, kind: UnitKind, at: Pos) -> Unit {
    Unit {
        id,
        kind,
        pos: at,
        health: 1000,
        level: 1,
        cooldown: 0,
        attack_power: 0,
        attack_range: 0,
        capacity: 100,
        backpack: Vec::new(),
    }
}

fn board(roles: Vec<Unit>) -> Turn {
    Turn {
        round_no: 5,
        day: 1,
        in_day_round: 5,
        is_day: true,
        width: 41,
        height: 32,
        team_type: Team::Challenger,
        gold: 0,
        total_score: 0,
        ours: roles,
        enemy: Vec::new(),
        robots: Vec::new(),
        zones: Vec::new(),
        weapon_shop: Vec::new(),
        vendor_prices: Vec::new(),
    }
}

fn pocketed_idle_role(seal: bool) -> Turn {
    let mut roles = vec![unit(10001, UnitKind::Station, pos(10, 24))];
    let mut cells = vec![
        pos(19, 19),
        pos(19, 20),
        pos(19, 21),
        pos(20, 19),
        pos(20, 21),
        pos(21, 19),
        pos(21, 21),
    ];
    if seal {
        cells.push(pos(21, 20));
    }
    for (index, at) in cells.iter().enumerate() {
        roles.push(unit(20000 + index as i64, UnitKind::Wall, *at));
    }
    roles.push(unit(10002, UnitKind::Worker, pos(20, 20)));
    board(roles)
}

#[test]
fn day_a_wall_that_seals_an_idle_role_out_is_refused() {
    let turn = pocketed_idle_role(false);
    let state = BotState::default();
    let idle = turn.role_by_id(10002).expect("the idle role exists");
    assert!(
        night_goal(&turn, &[], idle.id).is_none(),
        "test setup: this role mans no gun tonight"
    );
    assert!(
        can_reach_any(&turn, idle, &interior_cells(&turn)),
        "test setup: the role must be able to reach home BEFORE the wall"
    );
    assert!(
        roles_can_reach(&turn, &[]),
        "test setup: nobody is cut off yet, so the wall step is running"
    );
    assert!(
        wall_would_trap(&turn, &[], &state, pos(21, 20), &[]),
        "the one cell that lets the idle role home was about to be walled over"
    );
}

#[test]
fn day_an_idle_role_already_sealed_out_stops_the_wall_line() {
    let sealed = pocketed_idle_role(true);
    assert!(
        !roles_can_reach(&sealed, &[]),
        "wall building went ahead with a role sealed out of its own base"
    );
}

#[test]
fn day_a_wall_nobody_is_cut_off_by_is_allowed() {
    let turn = board(vec![
        unit(10001, UnitKind::Station, pos(10, 24)),
        unit(10002, UnitKind::Worker, pos(12, 24)),
    ]);
    let state = BotState::default();
    assert!(
        roles_can_reach(&turn, &[]),
        "an idle role standing inside the base is not a veto"
    );
    assert!(
        !wall_would_trap(&turn, &[], &state, pos(20, 20), &[]),
        "a wall in the open, far from every role's way home, traps nobody"
    );
}

#[test]
fn day_ring_distance_one_of_footprint() {
    let footprint = station_footprint(pos(10, 24));
    let ring = ring_cells(&footprint, 1);
    assert_eq!(ring.len(), 12);
    assert!(ring.iter().all(|cell| footprint_distance(*cell, &footprint) == 1));
}

#[test]
fn day_radius_two_ring_is_one_complete_layer() {
    let footprint = station_footprint(pos(10, 24));
    let ring = ring_cells(&footprint, 2);
    assert_eq!(ring.len(), 20);
    assert!(ring.iter().all(|cell| footprint_distance(*cell, &footprint) == 2));
    assert!(ring.iter().all(|cell| footprint_distance(*cell, &footprint) != 3));
}

#[test]
fn geometry_ring_distance_one_of_footprint() {
    let footprint = station_footprint(pos(10, 24));
    let ring = ring_cells(&footprint, 1);
    assert_eq!(ring.len(), 12);
    assert!(ring.iter().all(|cell| footprint_distance(*cell, &footprint) == 1));
}

#[test]
fn geometry_radius_two_ring_is_one_complete_layer() {
    let footprint = station_footprint(pos(10, 24));
    let ring = ring_cells(&footprint, 2);
    assert_eq!(ring.len(), 20);
    assert!(ring.iter().all(|cell| footprint_distance(*cell, &footprint) == 2));
    assert!(ring.iter().all(|cell| footprint_distance(*cell, &footprint) != 3));
}

#[test]
fn a_paired_role_goes_home_to_its_gun() {
    let mut rocket = unit(30001, UnitKind::Rocket, pos(9, 22));
    rocket.attack_range = 5;
    let turn = board(vec![
        unit(10001, UnitKind::Station, pos(10, 24)),
        rocket,
        unit(10002, UnitKind::Worker, pos(20, 20)),
    ]);
    let goal = night_goal(&turn, &[(10002, 30001)], 10002).expect("a paired role has a gun");
    assert!(!goal.is_empty());
    assert!(goal.iter().all(|cell| coregeek::model::chebyshev(*cell, pos(9, 22)) == 1));
    assert!(night_goal(&turn, &[(10002, 99999)], 10002).is_none(), "a missing tower is no goal");
}
