use coregeek::brain::route::{ring_cells, trip_rounds};
use coregeek::model::{footprint_distance, station_footprint, Item, Pos, Team, Turn, Unit, UnitKind, Zone, ZoneKind};

fn pos(x: i32, y: i32) -> Pos {
    Pos { x, y }
}

fn cheb(a: Pos, b: Pos) -> i64 {
    (a.x - b.x).abs().max((a.y - b.y).abs()) as i64
}

fn unit(id: i64, kind: UnitKind, at: Pos) -> Unit {
    Unit {
        id,
        kind,
        pos: at,
        health: 1000,
        level: 1,
        cooldown: 0,
        attack_power: 0,
        attack_range: 0,
        capacity: 100,
        backpack: Vec::new(),
    }
}

/// The day-1 opening: station at (10,24), two workers and a pioneer inside.
fn board(zones: Vec<Zone>, mut extra: Vec<Unit>) -> Turn {
    let mut roles = vec![
        unit(10001, UnitKind::Station, pos(10, 24)),
        unit(10002, UnitKind::Worker, pos(13, 24)),
        unit(10003, UnitKind::Worker, pos(14, 25)),
        unit(10004, UnitKind::Pioneer, pos(13, 26)),
    ];
    roles.append(&mut extra);
    Turn {
        round_no: 5,
        day: 1,
        in_day_round: 4,
        is_day: true,
        width: 41,
        height: 32,
        team_type: Team::Challenger,
        gold: 75,
        total_score: 0,
        ours: roles,
        enemy: Vec::new(),
        robots: Vec::new(),
        zones,
        weapon_shop: Vec::new(),
        vendor_prices: vec![(Item::Stone, 2), (Item::Iron, 8), (Item::Copper, 12)],
    }
}

#[test]
fn the_radius_two_shell_is_twenty_cells() {
    let turn = board(Vec::new(), Vec::new());
    let ring = ring_cells(&turn, 2);
    assert_eq!(ring.len(), 20);
    let footprint = station_footprint(pos(10, 24));
    assert!(ring.iter().all(|cell| footprint_distance(*cell, &footprint) == 2));
}

fn with_gate(gate: Pos) -> Turn {
    let probe = board(Vec::new(), Vec::new());
    let mut walls = Vec::new();
    for (index, cell) in ring_cells(&probe, 2).iter().enumerate() {
        if *cell == gate {
            continue;
        }
        walls.push(unit(20000 + index as i64, UnitKind::Wall, *cell));
    }
    board(vec![Zone { pos: pos(11, 28), kind: ZoneKind::Mine(Item::Stone) }], walls)
}

#[test]
fn a_crew_mining_south_does_not_walk_the_whole_ring() {
    let mine = pos(11, 28);
    let from = pos(12, 24);
    let direct = cheb(from, mine);
    let south = with_gate(pos(12, 26));
    let cheap = trip_rounds(&south, from, mine);
    assert!(cheap <= direct + 2, "through the south opening the walk is {cheap}, the straight line is {direct}");
    let corner = with_gate(pos(13, 22));
    let dear = trip_rounds(&corner, from, mine);
    assert!(dear >= direct + 4, "through the corner opening the walk is {dear}, the straight line is {direct}");
    assert!(cheap < dear);
}
