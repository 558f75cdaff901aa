use coregeek::brain::action::base_layout::{
    base_corner, entrance_cells, fp_min, operator_cell, wall_build_order, weapon_sites, BaseCorner,
};
use coregeek::brain::action::geometry::ring_cells;
use coregeek::model::{chebyshev, footprint_distance, station_footprint, Pos, Team, Turn, Unit, UnitKind};

fn pos(x: i32, y: i32) -> Pos {
    Pos { x, y }
}

fn unit(id: i64, kind: UnitKind, at: Pos) -> Unit {
    Unit {
        id,
        kind,
        pos: at,
        health: 1000,
        level: 1,
        cooldown: 0,
        attack_power: 0,
        attack_range: 0,
        capacity: 100,
        backpack: Vec::new(),
    }
}

fn board(at: Pos) -> Turn {
    Turn {
        round_no: 5,
        day: 1,
        in_day_round: 5,
        is_day: true,
        width: 41,
        height: 32,
        team_type: Team::Challenger,
        gold: 0,
        total_score: 0,
        ours: vec![unit(10001, UnitKind::Station, at)],
        enemy: Vec::new(),
        robots: Vec::new(),
        zones: Vec::new(),
        weapon_shop: Vec::new(),
        vendor_prices: Vec::new(),
    }
}

fn top_left() -> Turn {
    board(pos(10, 24))
}

fn bottom_right() -> Turn {
    board(pos(38, 4))
}

#[test]
fn the_corner_follows_the_station_x() {
    assert_eq!(base_corner(&top_left()), BaseCorner::TopLeft);
    assert_eq!(base_corner(&bottom_right()), BaseCorner::BottomRight);
}

#[test]
fn fp_min_is_the_footprints_low_corner() {
    assert_eq!(fp_min(&top_left()), Some(pos(10, 23)));
    assert_eq!(fp_min(&bottom_right()), Some(pos(38, 3)));
}

#[test]
fn the_l_sits_where_the_spec_puts_it() {
    let turn = top_left();
    assert_eq!(
        weapon_sites(&turn),
        vec![pos(9, 22), pos(10, 22), pos(9, 24)],
        "the L's three weapon cells, in build order"
    );
    assert_eq!(operator_cell(&turn), Some(pos(9, 23)));
}

#[test]
fn the_l_mirrors_onto_the_bottom_right_corner() {
    let turn = bottom_right();
    assert_eq!(weapon_sites(&turn), vec![pos(40, 5), pos(39, 5), pos(40, 3)]);
    assert_eq!(operator_cell(&turn), Some(pos(40, 4)));
}

#[test]
fn the_operator_reaches_every_gun_and_the_entrance() {
    for turn in [top_left(), bottom_right()] {
        let operator = operator_cell(&turn).expect("a station has an operator cell");
        for site in weapon_sites(&turn) {
            assert_eq!(
                chebyshev(operator, site),
                1,
                "the operator stand must touch every weapon site"
            );
        }
        assert!(
            entrance_cells(&turn).iter().any(|cell| chebyshev(operator, *cell) <= 1),
            "the operator cell must be reachable through the permanent entrance"
        );
    }
}

#[test]
fn the_wall_order_is_front_then_top_then_bottom() {
    let turn = top_left();
    let order = wall_build_order(&turn);
    assert_eq!(
        order,
        vec![
            pos(13, 21), pos(13, 22), pos(13, 23),
            pos(13, 24), pos(13, 25), pos(13, 26),
            pos(12, 26), pos(11, 26), pos(10, 26), pos(9, 26), pos(8, 26),
            pos(8, 21), pos(9, 21), pos(10, 21), pos(11, 21), pos(12, 21),
        ]
    );
    assert_eq!(
        entrance_cells(&turn),
        vec![pos(8, 22), pos(8, 23), pos(8, 24), pos(8, 25)],
        "the back four cells are the permanent entrance"
    );
}

#[test]
fn the_layout_tiles_the_ring_exactly() {
    for turn in [top_left(), bottom_right()] {
        let station = turn.station().expect("the station exists");
        let footprint = station_footprint(station.pos);
        let order = wall_build_order(&turn);
        let entrance = entrance_cells(&turn);
        assert_eq!(order.len(), 16);
        assert_eq!(entrance.len(), 4);
        assert!(
            order.iter().all(|a| !entrance.contains(a)),
            "the entrance cells are never in the build order"
        );
        let ring: Vec<Pos> = ring_cells(&footprint, 2);
        let mut covered: Vec<Pos> = order.iter().chain(entrance.iter()).copied().collect();
        covered.sort_by_key(|cell| (cell.x, cell.y));
        let mut ring = ring;
        ring.sort_by_key(|cell| (cell.x, cell.y));
        assert_eq!(covered, ring, "order + entrance = the whole 20-cell ring");
        for site in weapon_sites(&turn) {
            assert_eq!(
                footprint_distance(site, &footprint),
                1,
                "a weapon site is a ring-1 corridor cell"
            );
            assert!(!order.contains(&site) && !entrance.contains(&site));
        }
        assert_eq!(
            footprint_distance(operator_cell(&turn).expect("operator"), &footprint),
            1
        );
    }
}
