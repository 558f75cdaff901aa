use coregeek::brain::role::{RoleKind, Roles};
use coregeek::model::{Pos, Team, Turn, Unit, UnitKind};

fn unit(id: i64, kind: UnitKind, health: i64) -> Unit {
    Unit {
        id,
        kind,
        pos: Pos { x: 20, y: 15 },
        health,
        level: 1,
        cooldown: 0,
        attack_power: 0,
        attack_range: 0,
        capacity: 4,
        backpack: Vec::new(),
    }
}

fn turn_with(roles: Vec<Unit>) -> Turn {
    Turn {
        round_no: 1,
        day: 1,
        in_day_round: 0,
        is_day: true,
        width: 41,
        height: 32,
        team_type: Team::Challenger,
        gold: 0,
        total_score: 0,
        ours: roles,
        enemy: Vec::new(),
        robots: Vec::new(),
        zones: Vec::new(),
        weapon_shop: Vec::new(),
        vendor_prices: Vec::new(),
    }
}

#[test]
fn full_team_maps_to_three_slots() {
    let turn = turn_with(vec![
        unit(10001, UnitKind::Station, 1500),
        unit(10002, UnitKind::Worker, 100),
        unit(10003, UnitKind::Worker, 100),
        unit(10004, UnitKind::Pioneer, 100),
    ]);
    let roles = Roles::of(&turn);
    assert_eq!(roles.pioneer, Some(10004));
    assert_eq!(roles.wall_worker, Some(10002), "A is the lowest worker id");
    assert_eq!(roles.economy_worker, Some(10003), "B is the highest worker id");
    assert_eq!(roles.kind_of(10002), Some(RoleKind::WallWorker));
    assert_eq!(roles.kind_of(10003), Some(RoleKind::EconomyWorker));
    assert_eq!(roles.kind_of(10004), Some(RoleKind::Pioneer));
    assert_eq!(roles.kind_of(10001), None, "the station has no mainline");
}

#[test]
fn a_lone_worker_carries_the_wall_line() {
    let turn = turn_with(vec![unit(10001, UnitKind::Station, 1500), unit(10002, UnitKind::Worker, 100)]);
    let roles = Roles::of(&turn);
    assert_eq!(roles.wall_worker, Some(10002));
    assert_eq!(roles.economy_worker, None, "below two workers there is no economy slot");
}

#[test]
fn a_dead_pioneer_leaves_the_slot_empty() {
    let turn = turn_with(vec![
        unit(10001, UnitKind::Station, 1500),
        unit(10002, UnitKind::Worker, 100),
        unit(10003, UnitKind::Worker, 100),
        unit(10004, UnitKind::Pioneer, 0),
    ]);
    let roles = Roles::of(&turn);
    assert_eq!(roles.pioneer, None);
    assert_eq!(roles.kind_of(10004), None);
}
