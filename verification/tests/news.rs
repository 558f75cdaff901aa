use coregeek::brain::news::{
    parse_outlook, take_model_reading, ReadPhase, DEFAULT_HORIZON_DAYS, MAX_HORIZON_DAYS, expected_price, parse_official, price_outlook, Direction, Outlook, CONFIDENCE_CAP, KEYWORD_HORIZON,
    SIGNAL_STEP,
};
use coregeek::model::{COPPER, IRON, STONE};
use coregeek::state::BotState;

#[test]
fn parses_iron_collapse_sample() {
    let text = "矿业管理局紧急通报：北部铁矿区昨夜发生严重矿井塌方事故，主巷道结构受损。矿区将于明日全面停工，进行巷道加固和主矿脉修复。矿区领班表示：'今天浅层矿面还能抢采一些，明天的全面停工不可避免。'工程队评估：类似规模的塌方事故，修复工程通常需要2天左右才能完成并恢复开采。";
    let outages = parse_official(3, text);
    assert_eq!(outages.len(), 1);
    assert_eq!(outages[0].ore, IRON);
    assert_eq!(outages[0].from_day, 4);
    assert_eq!(outages[0].to_day, 5);
}

#[test]
fn ignores_plain_news() {
    assert!(parse_official(1, "今日无重大新闻").is_empty());
}

#[test]
fn chinese_numeral_duration() {
    let outages = parse_official(2, "铜矿检修，明日起停产三天。");
    assert_eq!(outages.len(), 1);
    assert_eq!(outages[0].ore, COPPER);
    assert_eq!(outages[0].from_day, 3);
    assert_eq!(outages[0].to_day, 5);
}

#[test]
fn price_outlook_reads_the_three_shapes_of_news() {
    let rise = "矿业管理局紧急通报：北部铁矿区昨夜发生严重矿井塌方事故，主巷道结构受损。\
                矿区将于明日全面停工，进行巷道加固和主矿脉修复。";
    let fall = "北部铁矿区完成复产检修，今日起恢复开采，产量提升，供应充足。";
    let unrelated = "市政公告：今日无重大新闻，请各单位正常作业。";
    let rows: [(&str, i64, &str, Option<(Direction, i64)>); 3] = [
        ("rise", 3, rise, Some((Direction::Rise, 3 * SIGNAL_STEP + 30))),
        ("fall", 4, fall, Some((Direction::Fall, 4 * SIGNAL_STEP + 30))),
        ("unrelated", 5, unrelated, None),
    ];
    for (name, day, text, expected) in rows {
        let outlooks = price_outlook(day, text);
        match expected {
            None => assert!(
                outlooks.is_empty(),
                "{name}: news that names no ore produced {outlooks:?}"
            ),
            Some((direction, wanted)) => {
                assert_eq!(outlooks.len(), 1, "{name}: {outlooks:?}");
                let outlook = &outlooks[0];
                assert_eq!(outlook.ore, IRON, "{name}: wrong ore");
                assert_eq!(outlook.direction, direction, "{name}: wrong way");
                assert_eq!(
                    outlook.confidence,
                    wanted.min(CONFIDENCE_CAP),
                    "{name}: confidence is not the signal count"
                );
                assert_eq!(outlook.day, day, "{name}: wrong publication day");
            }
        }
    }
}

#[test]
fn a_text_naming_several_ores_prices_each_of_them() {
    let text = "铁矿石与铜矿石同步减产，供应紧缺，价格将上涨。";
    let outlooks = price_outlook(2, text);
    let mut ores: Vec<&str> = outlooks.iter().map(|o| o.ore.name()).collect();
    ores.sort();
    assert_eq!(ores, vec![COPPER.name(), IRON.name()], "named ores, and only those");
    assert!(outlooks.iter().all(|o| o.direction == Direction::Rise));
}

#[test]
fn a_falling_price_is_not_read_as_a_rising_one() {
    let outlooks = price_outlook(1, "铜矿已恢复开采，供应充足，价格下跌。");
    assert_eq!(outlooks.len(), 1);
    assert_eq!(outlooks[0].direction, Direction::Fall);
}

#[test]
fn the_expected_price_follows_the_outlook_and_falls_back_to_today() {
    let current = 12;
    let rise = Outlook {
        ore: COPPER,
        direction: Direction::Rise,
        confidence: 80,
        day: 1,
        days: KEYWORD_HORIZON,
    };
    let fall = Outlook {
        direction: Direction::Fall,
        ..rise.clone()
    };
    assert_eq!(expected_price(current, None), current, "no news, today's price");
    assert!(
        expected_price(current, Some(&rise)) > current,
        "a shortage did not lift the price"
    );
    assert!(
        expected_price(current, Some(&fall)) < current,
        "a resumption did not cut the price"
    );
    assert_eq!(
        expected_price(current, Some(&rise)),
        expected_price(current, Some(&rise))
    );
    let flat = Outlook {
        ore: COPPER,
        direction: Direction::Flat,
        confidence: 90,
        day: 1,
        days: 2,
    };
    assert_eq!(expected_price(current, Some(&flat)), current);
}

#[test]
fn an_outage_starting_today_counts_from_the_publication_day() {
    let outages = parse_official(5, "今日起铁矿停工四天，铜矿照常。");
    assert_eq!(outages.len(), 2);
    assert_eq!(outages[0].ore, IRON);
    assert_eq!((outages[0].from_day, outages[0].to_day), (5, 8));
    assert_eq!(outages[1].ore, COPPER);
}

#[test]
fn a_long_outage_is_held_to_five_days_and_ten_is_read_as_ten() {
    let outages = parse_official(1, "铁矿封闭，预计十天。");
    assert_eq!(outages.len(), 1);
    assert_eq!((outages[0].from_day, outages[0].to_day), (2, 6));
}

#[test]
fn an_unnamed_duration_lasts_two_days() {
    let outages = parse_official(7, "石矿事故，暂停开采。");
    assert_eq!(outages.len(), 1);
    assert_eq!((outages[0].from_day, outages[0].to_day), (8, 9));
}

#[test]
fn the_expected_price_moves_by_half_the_confidence() {
    let rise = Outlook { ore: IRON, direction: Direction::Rise, confidence: 80, day: 1, days: 0 };
    let fall = Outlook { direction: Direction::Fall, ..rise };
    assert_eq!(expected_price(100, Some(&rise)), 140);
    assert_eq!(expected_price(100, Some(&fall)), 60);
    assert_eq!(expected_price(12, Some(&fall)), 7);
    assert_eq!(expected_price(1, Some(&fall)), 1);
}

#[test]
fn parse_outlook_reads_the_shape_it_asked_for() {
    let rows = [
        ("the asked-for object",
            r#"{"outlooks":[{"ore":"iron","direction":"rise","days":3,"confidence":80}]}"#,
            IRON, Some((Direction::Rise, 80, 3))),
        ("the same answer in Chinese, wrapped in prose",
            "我认为：\n{\"outlooks\":[{\"ore\":\"铜\",\"direction\":\"跌\",\"days\":2,\"confidence\":70}]}\n以上。",
            COPPER, Some((Direction::Fall, 70, 2))),
        ("no horizon named",
            r#"{"outlooks":[{"ore":"stone","direction":"flat","confidence":55}]}"#,
            STONE, Some((Direction::Flat, 55, DEFAULT_HORIZON_DAYS))),
        ("numbers outside the range",
            r#"{"outlooks":[{"ore":"iron","direction":"rise","days":99,"confidence":300}]}"#,
            IRON, Some((Direction::Rise, 100, MAX_HORIZON_DAYS))),
        ("a negative confidence",
            r#"{"outlooks":[{"ore":"iron","direction":"fall","days":1,"confidence":-40}]}"#,
            IRON, Some((Direction::Fall, 0, 1))),
        ("an ore nobody mines",
            r#"{"outlooks":[{"ore":"gold","direction":"rise","days":2,"confidence":90}]}"#,
            IRON, None),
        ("a direction nobody defined",
            r#"{"outlooks":[{"ore":"iron","direction":"maybe","days":2,"confidence":90}]}"#,
            IRON, None),
    ];
    for (name, resp, ore, expected) in rows {
        let readings = parse_outlook(1, resp).unwrap_or_else(|| panic!("{name}: not read"));
        match expected {
            None => assert!(readings.iter().all(|o| o.ore != ore), "{name}: {readings:?}"),
            Some((direction, confidence, days)) => {
                assert_eq!(readings.len(), 1, "{name}: {readings:?}");
                let reading = &readings[0];
                assert_eq!(reading.ore, ore, "{name}: wrong ore");
                assert_eq!(reading.direction, direction, "{name}: wrong way");
                assert_eq!(reading.confidence, confidence, "{name}: wrong confidence");
                assert_eq!(reading.days, days, "{name}: wrong horizon");
                assert_eq!(reading.day, 1, "{name}: wrong day");
            }
        }
    }
}

#[test]
fn an_answer_that_is_not_a_reading_is_not_a_reading() {
    assert!(parse_outlook(1, "根据新闻，铜价应该会下跌。").is_none());
    assert!(parse_outlook(1, r#"{"city":"北京","total_count":15}"#).is_none());
    assert!(parse_outlook(1, "").is_none());
    assert_eq!(parse_outlook(1, r#"{"outlooks":[]}"#), Some(Vec::new()));
}

#[test]
fn parse_outlook_keeps_one_reading_per_ore_and_reads_the_other_lists() {
    let v = parse_outlook(2, r#"{"prices":[{"ore":" IRON ","direction":"Up"},{"ore":"fe","direction":"down"}]}"#)
        .unwrap();
    assert_eq!(v.len(), 1);
    assert_eq!(v[0].ore, IRON);
    assert_eq!(v[0].direction, Direction::Rise);
    assert_eq!(v[0].confidence, 45);
    assert_eq!(v[0].days, DEFAULT_HORIZON_DAYS);
    assert!(parse_outlook(2, r#"{"outlooks":{"ore":"iron"}}"#).is_none());
    assert_eq!(parse_outlook(2, r#"{"trends":[{"ore":"铜矿石","direction":"持平"}]}"#).unwrap()[0].ore, COPPER);
}

#[test]
fn the_model_reading_replaces_the_days_keyword_readings() {
    let mut state = BotState::default();
    let keyword = Outlook { ore: IRON, direction: Direction::Fall, confidence: 30, day: 3, days: 0 };
    let older = Outlook { ore: COPPER, direction: Direction::Rise, confidence: 30, day: 2, days: 0 };
    state.outlooks = vec![older, keyword];
    // No ask outstanding: nothing changes.
    take_model_reading(&mut state, 3, r#"{"outlooks":[]}"#);
    assert_eq!(state.outlooks.len(), 2);
    state.news.phase = ReadPhase::AskedLlm { round: 10 };
    take_model_reading(&mut state, 3, r#"{"outlooks":[{"ore":"iron","direction":"rise","confidence":80}]}"#);
    assert_eq!(state.outlooks.len(), 2);
    assert_eq!(state.outlooks[0], older);
    assert_eq!(state.outlooks[1].direction, Direction::Rise);
    assert_eq!(state.news.phase, ReadPhase::Done);
    assert_eq!(state.news.read_day, Some(3));
}

#[test]
fn an_unreadable_answer_is_noted_for_the_retry() {
    let mut state = BotState::default();
    state.news.phase = ReadPhase::AskedLlm { round: 4 };
    state.news.attempts = 1;
    take_model_reading(&mut state, 3, "I cannot tell.");
    assert_eq!(state.news.phase, ReadPhase::Idle);
    assert!(state.news.correction.is_some());
    state.news.phase = ReadPhase::AskedLlm { round: 6 };
    state.news.attempts = 2;
    take_model_reading(&mut state, 3, "still prose");
    assert_eq!(state.news.phase, ReadPhase::Done);
    assert_eq!(state.news.read_day, None);
}
