use coregeek::brain::combat::{weights, Weights};
use coregeek::text::{parse_int, trimmed};

fn pairs(list: &[(&str, &str)]) -> Vec<(String, String)> {
    list.iter().map(|(k, v)| (k.to_string(), v.to_string())).collect()
}

fn chars(s: &str) -> Vec<char> {
    s.chars().collect()
}

#[test]
fn from_lookup_without_values_is_the_committed_dial() {
    let w = Weights::from_lookup(&Vec::new());
    let c = weights();
    assert_eq!(w.damage_weight, c.damage_weight);
    assert_eq!(w.kill_bonus_per_score, 20);
    assert_eq!(w.wall_breach_value, 320);
    assert_eq!(w.station_focus, 1);
}

#[test]
fn from_lookup_reads_trimmed_integers_under_their_names() {
    let w = Weights::from_lookup(&pairs(&[
        ("DAMAGE_WEIGHT", " 7 "),
        ("KILL_BONUS", "-3"),
        ("CLEAR_GAP", "+1"),
        ("WALL_BREACH", "0"),
    ]));
    assert_eq!(w.damage_weight, 7);
    assert_eq!(w.kill_bonus_per_score, -3);
    assert_eq!(w.clear_gap_drive, 1);
    assert_eq!(w.wall_breach_value, 0);
    assert_eq!(w.tower_value, 300);
}

#[test]
fn from_lookup_keeps_the_default_for_text_that_is_no_integer() {
    let w = Weights::from_lookup(&pairs(&[
        ("DAMAGE_WEIGHT", "seven"),
        ("FIRE_HORIZON", ""),
        ("ROLE_VALUE", "1 2"),
        ("TOWER_VALUE", "99999999999999999999"),
    ]));
    assert_eq!(w.damage_weight, 2);
    assert_eq!(w.fire_horizon, 10);
    assert_eq!(w.role_value, 400);
    assert_eq!(w.tower_value, 300);
}

#[test]
fn from_lookup_takes_the_first_value_of_a_name() {
    let w = Weights::from_lookup(&pairs(&[("WALL_VALUE", "5"), ("WALL_VALUE", "9")]));
    assert_eq!(w.wall_value, 5);
}

#[test]
fn parse_int_matches_str_parse() {
    for s in ["0", "42", "-17", "+5", "", "-", "+", "1a", "9223372036854775807",
        "-9223372036854775808", "9223372036854775808", "00012", " 3"] {
        assert_eq!(parse_int(&chars(s)), s.parse::<i64>().ok(), "{s}");
    }
}

#[test]
fn trimmed_matches_str_trim() {
    for s in ["", "   ", " a ", "\tb c\n", "x", "\u{3000}y\u{a0}"] {
        let t: String = trimmed(&chars(s)).into_iter().collect();
        assert_eq!(t, s.trim());
    }
}
