use coregeek::brain::score::{score_round, RobotEvent, ScoreLedger};
use coregeek::model::{Pos, Robot, RobotKind, Team, Turn, Unit, UnitKind};

fn unit(id: i64, kind: UnitKind, x: i32, y: i32, hp: i64) -> Unit {
    Unit {
        id,
        kind,
        pos: Pos { x, y },
        health: hp,
        level: 1,
        cooldown: 0,
        attack_power: 0,
        attack_range: 0,
        capacity: 0,
        backpack: Vec::new(),
    }
}

fn robot(id: i64, kind: RobotKind, hp: i64) -> Robot {
    Robot { id, kind, pos: Pos { x: 5, y: 5 }, health: hp, target_team: Team::Challenger, dizzy: false }
}

fn board(day: i64, is_day: bool, in_day_round: i64, score: i64, station: bool, robots: Vec<Robot>) -> Turn {
    let mut ours = vec![unit(1, UnitKind::Wall, 3, 3, 100), unit(2, UnitKind::Wall, 4, 3, 50)];
    if station {
        ours.push(unit(9, UnitKind::Station, 10, 10, 800));
    }
    Turn {
        round_no: 1,
        day,
        in_day_round,
        is_day,
        width: 41,
        height: 32,
        team_type: Team::Challenger,
        gold: 0,
        total_score: score,
        ours,
        enemy: vec![unit(50, UnitKind::Wall, 30, 3, 70)],
        robots,
        zones: Vec::new(),
        weapon_shop: Vec::new(),
        vendor_prices: Vec::new(),
    }
}

#[test]
fn a_robot_shot_away_at_night_scores_its_kind() {
    let mut ledger = ScoreLedger::new();
    let night = board(1, false, 60, 10, true, vec![robot(7, RobotKind::Large, 40), robot(8, RobotKind::Small, 5)]);
    let first = score_round(&night, &mut ledger);
    assert_eq!(first.score_delta, None);
    assert_eq!(first.killed, 0);
    assert_eq!(first.robot_events, vec![RobotEvent::Spawn { id: 7, hp: 40 }, RobotEvent::Spawn { id: 8, hp: 5 }]);
    assert_eq!(first.wall_hp, 150);
    assert_eq!(first.enemy_wall_hp, 70);
    let next = board(1, false, 61, 20, true, vec![robot(8, RobotKind::Small, 3)]);
    let r = score_round(&next, &mut ledger);
    assert_eq!(r.score_delta, Some(10));
    assert_eq!(r.killed, 4);
    assert_eq!(r.cum_kill, 4);
    assert_eq!(r.survival, 10);
    assert_eq!(r.residual, 20 - 4 - 10);
    assert_eq!(r.robot_events, vec![RobotEvent::HpDelta { id: 8, delta: -2 }, RobotEvent::Gone { id: 7, hp: 40 }]);
    assert_eq!(r.wall_hp_delta, Some(0));
    assert_eq!(ledger.cum_kill_score, 4);
}

#[test]
fn dawn_clears_are_no_kills() {
    let mut ledger = ScoreLedger::new();
    let night = board(1, false, 70, 0, true, vec![robot(7, RobotKind::Boss, 400)]);
    score_round(&night, &mut ledger);
    let dawn = board(2, true, 0, 0, true, Vec::new());
    let r = score_round(&dawn, &mut ledger);
    assert!(r.dawn);
    assert_eq!(r.killed, 0);
    assert_eq!(r.dawn_cleared, 1);
    assert_eq!(r.dawn_cleared_score, 10);
    assert_eq!(ledger.cum_kill_score, 0);
    assert_eq!(r.survival, 30);
}

#[test]
fn the_fall_day_is_kept_and_freezes_survival() {
    let mut ledger = ScoreLedger::new();
    let r = score_round(&board(3, true, 5, 0, false, Vec::new()), &mut ledger);
    assert_eq!(ledger.station_fell_day, Some(3));
    assert_eq!(r.survival, 30);
    let later = score_round(&board(6, true, 5, 0, false, Vec::new()), &mut ledger);
    assert_eq!(ledger.station_fell_day, Some(3));
    assert_eq!(later.survival, 30);
}
