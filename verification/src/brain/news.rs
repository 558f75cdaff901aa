//! Official-news reading: mine outages shift which veins can be worked, and
//! the words of the day's news point each named ore's price up or down.
//!
//! Both readers are keyword scans over the text's characters, so the same
//! text yields the same reading every round it is replayed.

use vstd::prelude::*;
use vstd::string::StrSliceExecFns;
use crate::model::{Item, IRON, STONE, COPPER};
use crate::state::BotState;
use crate::model::lemma_filter_step;
use crate::text::{chars_of, trimmed, lowered, spells, spec_trim, ascii_lower, dec, dec_string, push_text};
use crate::json::{JsonField, json_field, json_field_of, field_present, field_i64, as_i64, field_is_present};

verus! {

// ---------------------------------------------------------------------------
// Characters
// ---------------------------------------------------------------------------

/// `w` occurs in `t` starting at `i`.
pub open spec fn occurs_at(t: Seq<char>, w: Seq<char>, i: int) -> bool {
    0 <= i && i + w.len() <= t.len() && t.subrange(i, i + w.len()) == w
}

/// `w` is a substring of `t`.
pub open spec fn has(t: Seq<char>, w: Seq<char>) -> bool {
    exists|i: int| occurs_at(t, w, i)
}

/// Does `w` occur in `t`?
pub fn contains_word(t: &Vec<char>, w: &str) -> (r: bool)
    ensures
        r == has(t@, w@),
{
    let wv = chars_of(w);
    assert(t@.len() == t.len());
    if wv.len() == 0 {
        assert(t@.subrange(0, 0) =~= w@);
        assert(occurs_at(t@, w@, 0));
        return true;
    }
    if wv.len() > t.len() {
        assert forall|i: int| !occurs_at(t@, w@, i) by {}
        return false;
    }
    let mut i: usize = 0;
    let last = t.len() - wv.len();
    while i <= last
        invariant
            wv@ == w@,
            1 <= wv@.len() <= t@.len(),
            last == t@.len() - wv@.len(),
            t@.len() <= usize::MAX,
            forall|k: int| 0 <= k < i ==> !occurs_at(t@, w@, k),
            i <= last + 1,
        decreases t@.len() - i,
    {
        let mut j: usize = 0;
        let mut same = true;
        while j < wv.len()
            invariant
                wv@ == w@,
                i + wv@.len() <= t@.len(),
                t@.len() <= usize::MAX,
                i <= last,
                last == t@.len() - wv@.len(),
                j <= wv@.len(),
                same ==> forall|q: int| 0 <= q < j ==> t@[i + q] == wv@[q],
                !same ==> !occurs_at(t@, w@, i as int),
            decreases wv@.len() - j,
        {
            if t[i + j] != wv[j] {
                if same {
                    assert(t@.subrange(i as int, i + wv@.len())[j as int] == t@[i + j]);
                }
                same = false;
            }
            j += 1;
        }
        if same {
            assert(t@.subrange(i as int, i + wv@.len()) =~= w@);
            assert(occurs_at(t@, w@, i as int));
            return true;
        }
        i += 1;
    }
    assert forall|k: int| !occurs_at(t@, w@, k) by {
        if 0 <= k && k < i {
        }
    }
    false
}

// ---------------------------------------------------------------------------
// Outages
// ---------------------------------------------------------------------------

/// A vein that cannot be worked on the days `from_day..=to_day`.
#[derive(Clone, Copy, Debug, PartialEq, Eq, Structural)]
pub struct Outage {
    pub ore: Item,
    pub from_day: i64,
    pub to_day: i64,
}

/// The news announces an outage somewhere.
pub open spec fn names_outage(t: Seq<char>) -> bool {
    has(t, "塌方"@) || has(t, "停工"@) || has(t, "停产"@) || has(t, "关停"@) || has(t, "封闭"@)
        || has(t, "检修"@) || has(t, "暂停"@) || has(t, "事故"@) || has(t, "管制"@)
}

fn outage_word(t: &Vec<char>) -> (r: bool)
    ensures
        r == names_outage(t@),
{
    contains_word(t, "塌方") || contains_word(t, "停工") || contains_word(t, "停产")
        || contains_word(t, "关停") || contains_word(t, "封闭") || contains_word(t, "检修")
        || contains_word(t, "暂停") || contains_word(t, "事故") || contains_word(t, "管制")
}

/// The value of a duration digit: an ASCII digit or a Chinese numeral.
pub open spec fn numeral(c: char) -> Option<i64> {
    if '0' <= c && c <= '9' {
        Some((c as int - '0' as int) as i64)
    } else if c == '一' {
        Some(1)
    } else if c == '二' || c == '两' {
        Some(2)
    } else if c == '三' {
        Some(3)
    } else if c == '四' {
        Some(4)
    } else if c == '五' {
        Some(5)
    } else if c == '六' {
        Some(6)
    } else if c == '七' {
        Some(7)
    } else if c == '八' {
        Some(8)
    } else if c == '九' {
        Some(9)
    } else {
        None
    }
}

fn numeral_of(c: char) -> (r: Option<i64>)
    ensures
        r == numeral(c),
{
    if '0' <= c && c <= '9' {
        Some((c as u32 - '0' as u32) as i64)
    } else if c == '一' {
        Some(1)
    } else if c == '二' || c == '两' {
        Some(2)
    } else if c == '三' {
        Some(3)
    } else if c == '四' {
        Some(4)
    } else if c == '五' {
        Some(5)
    } else if c == '六' {
        Some(6)
    } else if c == '七' {
        Some(7)
    } else if c == '八' {
        Some(8)
    } else if c == '九' {
        Some(9)
    } else {
        None
    }
}

/// A numeral at `i` directly followed by 天.
pub open spec fn duration_at(t: Seq<char>, i: int) -> bool {
    0 <= i && i + 1 < t.len() && t[i + 1] == '天' && numeral(t[i]) is Some
}

/// The first "<numeral>天" of the text, else ten days for 十天, else nothing.
pub open spec fn spec_duration(t: Seq<char>) -> Option<i64> {
    if exists|i: int| duration_at(t, i) {
        let i = choose|i: int| duration_at(t, i) && forall|j: int| 0 <= j < i ==> !duration_at(t, j);
        numeral(t[i])
    } else if has(t, "十天"@) {
        Some(10)
    } else {
        None
    }
}

proof fn lemma_first_duration(t: Seq<char>, i: int)
    requires
        duration_at(t, i),
        forall|j: int| 0 <= j < i ==> !duration_at(t, j),
    ensures
        spec_duration(t) == numeral(t[i]),
{
    let c = choose|c: int| duration_at(t, c) && forall|j: int| 0 <= j < c ==> !duration_at(t, j);
    assert(duration_at(t, c) && forall|j: int| 0 <= j < c ==> !duration_at(t, j));
    if c < i {
        assert(!duration_at(t, c));
    }
    if i < c {
        assert(!duration_at(t, i));
    }
}

/// Scan for a "<number>天" duration hint ("需要2天左右", "停工三天").
pub fn find_duration_days(t: &Vec<char>) -> (r: Option<i64>)
    ensures
        r == spec_duration(t@),
{
    let mut i: usize = 0;
    while i < t.len()
        invariant
            i <= t@.len(),
            forall|j: int| 0 <= j < i ==> !duration_at(t@, j),
        decreases t@.len() - i,
    {
        if i + 1 < t.len() && t[i + 1] == '天' {
            let v = numeral_of(t[i]);
            if v.is_some() {
                proof {
                    lemma_first_duration(t@, i as int);
                }
                return v;
            }
        }
        i += 1;
    }
    assert forall|j: int| !duration_at(t@, j) by {
        if 0 <= j && j < t@.len() {
        }
    }
    if contains_word(t, "十天") {
        Some(10)
    } else {
        None
    }
}

/// The outage starts on the day the news is published.
pub open spec fn starts_today(t: Seq<char>) -> bool {
    has(t, "即日"@) || has(t, "今日起"@) || has(t, "今天起"@)
}

pub open spec fn outage_days(t: Seq<char>) -> int {
    let d = match spec_duration(t) { Some(d) => d as int, None => 2 };
    if d < 1 { 1 } else if d > 5 { 5 } else { d }
}

pub open spec fn outage_for(day: int, t: Seq<char>, ore: Item) -> Outage {
    let start = if starts_today(t) { day } else { day + 1 };
    Outage { ore, from_day: start as i64, to_day: (start + outage_days(t) - 1) as i64 }
}

pub open spec fn outage_if(day: int, t: Seq<char>, word: Seq<char>, ore: Item) -> Seq<Outage> {
    if has(t, word) { seq![outage_for(day, t, ore)] } else { Seq::empty() }
}

/// The outages a day's news announces: none unless it names an outage, then
/// one per ore character it contains (iron, stone, copper), starting today
/// when it says so and tomorrow otherwise, for the stated number of days
/// (two when none is stated) held to 1..=5.
pub open spec fn spec_parse_official(day: int, t: Seq<char>) -> Seq<Outage> {
    if !names_outage(t) {
        Seq::empty()
    } else {
        outage_if(day, t, "铁"@, IRON) + outage_if(day, t, "石"@, STONE) + outage_if(day, t, "铜"@, COPPER)
    }
}

/// Parse the day's official news into mine outages. `day` is the day the
/// news was published.
pub fn parse_official(day: i64, text: &str) -> (out: Vec<Outage>)
    requires
        day <= i64::MAX - 6,
    ensures
        out@ == spec_parse_official(day as int, text@),
{
    let t = chars_of(text);
    let mut out: Vec<Outage> = Vec::new();
    if !outage_word(&t) {
        return out;
    }
    let start: i64 = if contains_word(&t, "即日") || contains_word(&t, "今日起") || contains_word(&t, "今天起") {
        day
    } else {
        day + 1
    };
    let d: i64 = match find_duration_days(&t) {
        Some(d) => d,
        None => 2,
    };
    let duration: i64 = if d < 1 { 1 } else if d > 5 { 5 } else { d };
    let entry_iron = Outage { ore: IRON, from_day: start, to_day: start + duration - 1 };
    let entry_stone = Outage { ore: STONE, from_day: start, to_day: start + duration - 1 };
    let entry_copper = Outage { ore: COPPER, from_day: start, to_day: start + duration - 1 };
    if contains_word(&t, "铁") {
        out.push(entry_iron);
    }
    let ghost a = out@;
    if contains_word(&t, "石") {
        out.push(entry_stone);
    }
    let ghost b = out@;
    if contains_word(&t, "铜") {
        out.push(entry_copper);
    }
    assert(a =~= outage_if(day as int, t@, "铁"@, IRON));
    assert(b =~= a + outage_if(day as int, t@, "石"@, STONE));
    assert(out@ =~= b + outage_if(day as int, t@, "铜"@, COPPER));
    out
}

// ---------------------------------------------------------------------------
// Price outlook
// ---------------------------------------------------------------------------

/// Which way the news points an ore's price.
#[derive(Debug, Clone, Copy, PartialEq, Eq, Structural)]
pub enum Direction {
    Rise,
    Fall,
    Flat,
}

/// One ore's expected price move, as a day's official news reads it.
#[derive(Debug, Clone, Copy, PartialEq, Eq, Structural)]
pub struct Outlook {
    pub ore: Item,
    pub direction: Direction,
    /// 0..=100: how far the expected price may move off today's.
    pub confidence: i64,
    /// The day the news was published.
    pub day: i64,
    /// How many days the move lasts, counted from `day`; 0 is "no horizon".
    pub days: i64,
}

impl Outlook {
    pub open spec fn wf(&self) -> bool {
        0 <= self.confidence <= 100
    }
}

/// How long a keyword reading claims to last: no horizon.
pub const KEYWORD_HORIZON: i64 = 0;
/// One signal is worth this much confidence.
pub const SIGNAL_STEP: i64 = 15;
/// Confidence never reaches 100.
pub const CONFIDENCE_CAP: i64 = 95;

pub open spec fn one_if(b: bool) -> int {
    if b { 1 } else { 0 }
}

/// Words meaning the ore is about to get scarcer or dearer, counted.
pub open spec fn rise_signals(t: Seq<char>) -> int {
    rise_outage_signals(t) + rise_market_signals(t)
}

pub open spec fn rise_outage_signals(t: Seq<char>) -> int {
    one_if(has(t, "塌方"@)) + one_if(has(t, "停工"@)) + one_if(has(t, "停产"@)) + one_if(has(t, "关停"@))
        + one_if(has(t, "封闭"@)) + one_if(has(t, "检修"@)) + one_if(has(t, "暂停"@))
}

pub open spec fn rise_market_signals(t: Seq<char>) -> int {
    one_if(has(t, "事故"@)) + one_if(has(t, "管制"@)) + one_if(has(t, "短缺"@)) + one_if(has(t, "紧缺"@))
        + one_if(has(t, "供不应求"@)) + one_if(has(t, "涨价"@)) + one_if(has(t, "上涨"@))
}

/// Words meaning supply is coming back or demand is going away, counted.
pub open spec fn fall_signals(t: Seq<char>) -> int {
    fall_supply_signals(t) + fall_market_signals(t)
}

pub open spec fn fall_supply_signals(t: Seq<char>) -> int {
    one_if(has(t, "复产"@)) + one_if(has(t, "复工"@)) + one_if(has(t, "恢复开采"@)) + one_if(has(t, "恢复生产"@))
        + one_if(has(t, "增产"@)) + one_if(has(t, "产量提升"@))
}

pub open spec fn fall_market_signals(t: Seq<char>) -> int {
    one_if(has(t, "供应充足"@)) + one_if(has(t, "库存充足"@)) + one_if(has(t, "滞销"@))
        + one_if(has(t, "需求下降"@)) + one_if(has(t, "降价"@)) + one_if(has(t, "下跌"@))
}

fn count(b: bool) -> (n: i64)
    ensures
        n == one_if(b),
{
    if b { 1 } else { 0 }
}

fn rise_outage_count(t: &Vec<char>) -> (n: i64)
    ensures
        n == rise_outage_signals(t@),
        0 <= n <= 7,
{
    let a = count(contains_word(t, "塌方"));
    let b = count(contains_word(t, "停工"));
    let c = count(contains_word(t, "停产"));
    let d = count(contains_word(t, "关停"));
    let e = count(contains_word(t, "封闭"));
    let f = count(contains_word(t, "检修"));
    let g = count(contains_word(t, "暂停"));
    a + b + c + d + e + f + g
}

fn rise_market_count(t: &Vec<char>) -> (n: i64)
    ensures
        n == rise_market_signals(t@),
        0 <= n <= 7,
{
    let a = count(contains_word(t, "事故"));
    let b = count(contains_word(t, "管制"));
    let c = count(contains_word(t, "短缺"));
    let d = count(contains_word(t, "紧缺"));
    let e = count(contains_word(t, "供不应求"));
    let f = count(contains_word(t, "涨价"));
    let g = count(contains_word(t, "上涨"));
    a + b + c + d + e + f + g
}

fn fall_supply_count(t: &Vec<char>) -> (n: i64)
    ensures
        n == fall_supply_signals(t@),
        0 <= n <= 6,
{
    let a = count(contains_word(t, "复产"));
    let b = count(contains_word(t, "复工"));
    let c = count(contains_word(t, "恢复开采"));
    let d = count(contains_word(t, "恢复生产"));
    let e = count(contains_word(t, "增产"));
    let f = count(contains_word(t, "产量提升"));
    a + b + c + d + e + f
}

fn fall_market_count(t: &Vec<char>) -> (n: i64)
    ensures
        n == fall_market_signals(t@),
        0 <= n <= 6,
{
    let a = count(contains_word(t, "供应充足"));
    let b = count(contains_word(t, "库存充足"));
    let c = count(contains_word(t, "滞销"));
    let d = count(contains_word(t, "需求下降"));
    let e = count(contains_word(t, "降价"));
    let f = count(contains_word(t, "下跌"));
    a + b + c + d + e + f
}

/// The text names this ore as a resource: stone has to be named as stone
/// (石矿, 石头, 石料), not as the second character of 矿石.
pub open spec fn spec_names_ore(t: Seq<char>, ore: Item) -> bool {
    if ore == STONE {
        has(t, "石矿"@) || has(t, "石头"@) || has(t, "石料"@)
    } else if ore == IRON {
        has(t, "铁"@)
    } else {
        has(t, "铜"@)
    }
}

fn names_ore(t: &Vec<char>, ore: Item) -> (r: bool)
    ensures
        r == spec_names_ore(t@, ore),
{
    if ore == STONE {
        contains_word(t, "石矿") || contains_word(t, "石头") || contains_word(t, "石料")
    } else if ore == IRON {
        contains_word(t, "铁")
    } else {
        contains_word(t, "铜")
    }
}

pub open spec fn outlook_if(day: int, t: Seq<char>, ore: Item, direction: Direction, confidence: int) -> Seq<Outlook> {
    if spec_names_ore(t, ore) {
        seq![Outlook { ore, direction, confidence: confidence as i64, day: day as i64, days: KEYWORD_HORIZON }]
    } else {
        Seq::empty()
    }
}

/// The keyword reading of a day's news: nothing when no direction word
/// occurs; otherwise the louder direction (a tie goes to the rise), with
/// confidence `15 × (signals + 2)` capped at 95, for each ore the text names
/// (iron, stone, copper, in that order).
pub open spec fn spec_price_outlook(day: int, t: Seq<char>) -> Seq<Outlook> {
    let rise = rise_signals(t);
    let fall = fall_signals(t);
    if rise == 0 && fall == 0 {
        Seq::empty()
    } else {
        let direction = if rise >= fall { Direction::Rise } else { Direction::Fall };
        let signals = if rise >= fall { rise } else { fall };
        let raw = SIGNAL_STEP * (signals + 2);
        let confidence = if raw < CONFIDENCE_CAP { raw } else { CONFIDENCE_CAP as int };
        outlook_if(day, t, IRON, direction, confidence) + outlook_if(day, t, STONE, direction, confidence)
            + outlook_if(day, t, COPPER, direction, confidence)
    }
}

/// Read the day's official news as expected price moves, one per ore the
/// text names.
pub fn price_outlook(day: i64, text: &str) -> (out: Vec<Outlook>)
    ensures
        out@ == spec_price_outlook(day as int, text@),
{
    let t = chars_of(text);
    let mut out: Vec<Outlook> = Vec::new();
    let rise = rise_outage_count(&t) + rise_market_count(&t);
    let fall = fall_supply_count(&t) + fall_market_count(&t);
    if rise == 0 && fall == 0 {
        return out;
    }
    let direction = if rise >= fall { Direction::Rise } else { Direction::Fall };
    let signals = if rise >= fall { rise } else { fall };
    let raw = SIGNAL_STEP * (signals + 2);
    let confidence = if raw < CONFIDENCE_CAP { raw } else { CONFIDENCE_CAP };
    if names_ore(&t, IRON) {
        out.push(Outlook { ore: IRON, direction, confidence, day, days: KEYWORD_HORIZON });
    }
    let ghost a = out@;
    if names_ore(&t, STONE) {
        out.push(Outlook { ore: STONE, direction, confidence, day, days: KEYWORD_HORIZON });
    }
    let ghost b = out@;
    if names_ore(&t, COPPER) {
        out.push(Outlook { ore: COPPER, direction, confidence, day, days: KEYWORD_HORIZON });
    }
    assert(a =~= outlook_if(day as int, t@, IRON, direction, confidence as int));
    assert(b =~= a + outlook_if(day as int, t@, STONE, direction, confidence as int));
    assert(out@ =~= b + outlook_if(day as int, t@, COPPER, direction, confidence as int));
    out
}

/// Rust's integer division, rounding toward zero.
pub open spec fn div_toward_zero(n: int, d: int) -> int {
    if n >= 0 { n / d } else { -((-n) / d) }
}

pub open spec fn spec_expected_price(current: int, outlook: Option<Outlook>) -> int {
    match outlook {
        None => current,
        Some(o) => {
            let lift: int = match o.direction {
                Direction::Rise => o.confidence as int,
                Direction::Fall => -o.confidence,
                Direction::Flat => 0,
            };
            let p = div_toward_zero(current * (100 + div_toward_zero(lift, 2)), 100);
            if p > 1 { p } else { 1 }
        },
    }
}

fn div_trunc(n: i64, d: i64) -> (q: i64)
    requires
        d > 0,
        n > i64::MIN,
    ensures
        q == div_toward_zero(n as int, d as int),
{
    if n >= 0 {
        n / d
    } else {
        let m: i64 = -n;
        let q: i64 = m / d;
        assert(0 <= q <= m) by (nonlinear_arith)
            requires m > 0, d > 0, q == m as int / d as int;
        -q
    }
}

/// What one ore should be priced at today: today's price moved by half the
/// reading's confidence (in percent) up or down, never below 1; today's
/// price when there is no reading.
pub fn expected_price(current: i64, outlook: Option<&Outlook>) -> (p: i64)
    requires
        -10_000_000_000_000_000 <= current <= 10_000_000_000_000_000,
        outlook matches Some(o) ==> o.wf(),
    ensures
        p == spec_expected_price(current as int, match outlook { Some(o) => Some(*o), None => None }),
{
    let o = match outlook {
        None => return current,
        Some(o) => o,
    };
    let lift: i64 = match o.direction {
        Direction::Rise => o.confidence,
        Direction::Fall => -o.confidence,
        Direction::Flat => 0,
    };
    let factor = 100 + div_trunc(lift, 2);
    assert(50 <= factor <= 150);
    assert(-1_500_000_000_000_000_000 <= current * factor <= 1_500_000_000_000_000_000) by (nonlinear_arith)
        requires -10_000_000_000_000_000 <= current <= 10_000_000_000_000_000, 50 <= factor <= 150;
    let p = div_trunc(current * factor, 100);
    if p > 1 { p } else { 1 }
}

pub open spec fn spec_direction_word(d: Direction) -> Seq<char> {
    match d {
        Direction::Rise => "rise"@,
        Direction::Fall => "fall"@,
        Direction::Flat => "flat"@,
    }
}

/// The one spelling of a direction the records use.
pub fn direction_word(direction: Direction) -> (w: &'static str)
    ensures
        w@ == spec_direction_word(direction),
{
    match direction {
        Direction::Rise => "rise",
        Direction::Fall => "fall",
        Direction::Flat => "flat",
    }
}

// ---------------------------------------------------------------------------
// Asking the model about the day's news
// ---------------------------------------------------------------------------

/// Rounds an ask may stay unanswered before it counts as lost.
pub const NEWS_WAIT_ROUNDS: i64 = 2;
/// Asks a day gets before the keyword scan keeps the day.
pub const NEWS_MAX_ATTEMPTS: i64 = 2;
/// How much of the news text goes into the prompt.
pub const NEWS_BRIEF_CHARS: usize = 600;

/// Where the day's news read has got to.
#[derive(Clone, Copy, Debug, PartialEq, Eq, Structural)]
pub enum ReadPhase {
    /// No ask is outstanding: the read is not started or is retrying.
    Idle,
    /// The prompt went out at `round`; an answer is outstanding.
    AskedLlm { round: i64 },
    /// Answered, or given up on for today: the keyword scan has the day.
    Done,
}

impl Default for ReadPhase {
    fn default() -> (p: ReadPhase)
        ensures
            p == ReadPhase::Idle,
    {
        ReadPhase::Idle
    }
}

/// The state of one day's news read.
#[derive(Clone, Debug)]
pub struct NewsRead {
    pub phase: ReadPhase,
    /// Asks made today.
    pub attempts: i64,
    /// The day the model answered for.
    pub read_day: Option<i64>,
    /// What the last answer got wrong, handed back in the retry's prompt.
    pub correction: Option<String>,
}

impl NewsRead {
    pub open spec fn spec_fresh() -> NewsRead {
        NewsRead { phase: ReadPhase::Idle, attempts: 0, read_day: None, correction: None }
    }
}

impl Default for NewsRead {
    fn default() -> (n: NewsRead)
        ensures
            n == NewsRead::spec_fresh(),
    {
        NewsRead { phase: ReadPhase::Idle, attempts: 0, read_day: None, correction: None }
    }
}

impl NewsRead {
    /// An ask is out and unanswered.
    pub fn awaits_response(&self) -> (r: bool)
        ensures
            r == (self.phase is AskedLlm),
    {
        match self.phase {
            ReadPhase::AskedLlm { .. } => true,
            _ => false,
        }
    }

    /// The read still has an ask to make today.
    pub fn wants_reading(&self) -> (r: bool)
        ensures
            r == (self.phase == ReadPhase::Idle),
    {
        match self.phase {
            ReadPhase::Idle => true,
            _ => false,
        }
    }

    /// The ask was not answered: note why, then retry while asks remain, or
    /// leave the rest of the day to the keyword scan.
    pub fn note_lost(&mut self, note: &str)
        ensures
            final(self).correction matches Some(c) && c@ == note@,
            final(self).phase == (if old(self).attempts >= NEWS_MAX_ATTEMPTS { ReadPhase::Done } else { ReadPhase::Idle }),
            final(self).attempts == old(self).attempts,
            final(self).read_day == old(self).read_day,
    {
        self.correction = Some(note.to_owned());
        self.phase = if self.attempts >= NEWS_MAX_ATTEMPTS { ReadPhase::Done } else { ReadPhase::Idle };
    }

    /// The day is read: the model answered for `day`.
    pub fn note_read(&mut self, day: i64)
        ensures
            final(self).read_day == Some(day),
            final(self).correction is None,
            final(self).phase == ReadPhase::Done,
            final(self).attempts == old(self).attempts,
    {
        self.read_day = Some(day);
        self.correction = None;
        self.phase = ReadPhase::Done;
    }
}

// ---------------------------------------------------------------------------
// Reading the model's answer
// ---------------------------------------------------------------------------

/// A reading's horizon when the answer gives none.
pub const DEFAULT_HORIZON_DAYS: i64 = 2;
/// The longest horizon an answer may claim.
pub const MAX_HORIZON_DAYS: i64 = 5;
/// A reading's confidence when the answer gives none.
pub const DEFAULT_CONFIDENCE: i64 = 45;

/// The ore an answer names: `iron`, `FE`, `铁矿` and the like, trimmed and
/// with ASCII case ignored.
pub open spec fn spec_ore_of(name: Seq<char>) -> Option<Item> {
    let l = ascii_lower(spec_trim(name));
    if l == "iron"@ || l == "fe"@ || l == "铁"@ || l == "铁矿"@ || l == "铁矿石"@ {
        Some(IRON)
    } else if l == "stone"@ || l == "rock"@ || l == "石"@ || l == "石矿"@ || l == "石头"@ || l == "石料"@ {
        Some(STONE)
    } else if l == "copper"@ || l == "cu"@ || l == "铜"@ || l == "铜矿"@ || l == "铜矿石"@ {
        Some(COPPER)
    } else {
        None
    }
}

/// The direction an answer names. An unknown word is no reading: `flat`
/// and a word nobody understood are not the same claim.
pub open spec fn spec_direction_of(word: Seq<char>) -> Option<Direction> {
    let l = ascii_lower(spec_trim(word));
    if l == "rise"@ || l == "rising"@ || l == "up"@ || l == "increase"@ || l == "涨"@ || l == "上涨"@
        || l == "涨价"@ || l == "看涨"@ {
        Some(Direction::Rise)
    } else if l == "fall"@ || l == "falling"@ || l == "down"@ || l == "decrease"@ || l == "跌"@
        || l == "下跌"@ || l == "降价"@ || l == "看跌"@ {
        Some(Direction::Fall)
    } else if l == "flat"@ || l == "stable"@ || l == "unchanged"@ || l == "no_change"@ || l == "平"@
        || l == "持平"@ || l == "不变"@ {
        Some(Direction::Flat)
    } else {
        None
    }
}

fn ore_of(name: &str) -> (r: Option<Item>)
    ensures
        r == spec_ore_of(name@),
{
    let raw = chars_of(name);
    let t = trimmed(&raw);
    let l = lowered(&t);
    if spells(&l, "iron") || spells(&l, "fe") || spells(&l, "铁") || spells(&l, "铁矿") || spells(&l, "铁矿石") {
        Some(IRON)
    } else if spells(&l, "stone") || spells(&l, "rock") || spells(&l, "石") || spells(&l, "石矿")
        || spells(&l, "石头") || spells(&l, "石料") {
        Some(STONE)
    } else if spells(&l, "copper") || spells(&l, "cu") || spells(&l, "铜") || spells(&l, "铜矿")
        || spells(&l, "铜矿石") {
        Some(COPPER)
    } else {
        None
    }
}

fn direction_of(word: &str) -> (r: Option<Direction>)
    ensures
        r == spec_direction_of(word@),
{
    let raw = chars_of(word);
    let t = trimmed(&raw);
    let l = lowered(&t);
    if spells(&l, "rise") || spells(&l, "rising") || spells(&l, "up") || spells(&l, "increase")
        || spells(&l, "涨") || spells(&l, "上涨") || spells(&l, "涨价") || spells(&l, "看涨") {
        Some(Direction::Rise)
    } else if spells(&l, "fall") || spells(&l, "falling") || spells(&l, "down") || spells(&l, "decrease")
        || spells(&l, "跌") || spells(&l, "下跌") || spells(&l, "降价") || spells(&l, "看跌") {
        Some(Direction::Fall)
    } else if spells(&l, "flat") || spells(&l, "stable") || spells(&l, "unchanged") || spells(&l, "no_change")
        || spells(&l, "平") || spells(&l, "持平") || spells(&l, "不变") {
        Some(Direction::Flat)
    } else {
        None
    }
}

/// Where `c` first occurs in `s`.
pub open spec fn first_at(s: Seq<char>, c: char) -> Option<int>
    decreases s.len(),
{
    if s.len() == 0 {
        None
    } else {
        match first_at(s.drop_last(), c) {
            Some(i) => Some(i),
            None => if s.last() == c { Some(s.len() - 1) } else { None },
        }
    }
}

/// Where `c` last occurs in `s`.
pub open spec fn last_at(s: Seq<char>, c: char) -> Option<int>
    decreases s.len(),
{
    if s.len() == 0 {
        None
    } else if s.last() == c {
        Some(s.len() - 1)
    } else {
        last_at(s.drop_last(), c)
    }
}

/// The JSON object the answer holds: from its first `{` to its last `}`.
pub open spec fn answer_body(resp: Seq<char>) -> Option<Seq<char>> {
    match (first_at(resp, '{'), last_at(resp, '}')) {
        (Some(a), Some(b)) => if b > a { Some(resp.subrange(a, b + 1)) } else { None },
        _ => None,
    }
}

/// The list the readings stand in: `outlooks`, else `prices`, else
/// `trends`, whichever is named first.
pub open spec fn list_key(body: Seq<char>) -> Option<Seq<char>> {
    if field_present(json_field_of(body, "/outlooks"@)) {
        Some("/outlooks"@)
    } else if field_present(json_field_of(body, "/prices"@)) {
        Some("/prices"@)
    } else if field_present(json_field_of(body, "/trends"@)) {
        Some("/trends"@)
    } else {
        None
    }
}

/// The pointer to `field` of entry `i` of the list at `key`.
pub open spec fn entry_ptr(key: Seq<char>, i: int, field: Seq<char>) -> Seq<char> {
    key + "/"@ + dec(i) + "/"@ + field
}

pub open spec fn field_text(f: JsonField) -> Option<Seq<char>> {
    match f {
        JsonField::Text(s) => Some(s@),
        _ => None,
    }
}

pub open spec fn clamp_to(v: i64, lo: i64, hi: i64) -> i64 {
    if v < lo { lo } else if v > hi { hi } else { v }
}

/// The reading entry `i` gives, when it names a known ore and direction:
/// confidence clamped to `0..=100` (45 when absent), horizon clamped to
/// `1..=5` days (2 when absent).
pub open spec fn entry_reading(body: Seq<char>, key: Seq<char>, i: int, day: i64) -> Option<Outlook> {
    let ore = match field_text(json_field_of(body, entry_ptr(key, i, "ore"@))) {
        Some(t) => spec_ore_of(t),
        None => None,
    };
    let dir = match field_text(json_field_of(body, entry_ptr(key, i, "direction"@))) {
        Some(t) => spec_direction_of(t),
        None => None,
    };
    let conf = match field_i64(json_field_of(body, entry_ptr(key, i, "confidence"@))) {
        Some(c) => c,
        None => DEFAULT_CONFIDENCE,
    };
    let days = match field_i64(json_field_of(body, entry_ptr(key, i, "days"@))) {
        Some(d) => d,
        None => DEFAULT_HORIZON_DAYS,
    };
    match (ore, dir) {
        (Some(o), Some(d)) => Some(Outlook {
            ore: o,
            direction: d,
            confidence: clamp_to(conf, 0, 100),
            day,
            days: clamp_to(days, 1, MAX_HORIZON_DAYS),
        }),
        _ => None,
    }
}

pub open spec fn has_ore(s: Seq<Outlook>, ore: Item) -> bool {
    exists|k: int| 0 <= k < s.len() && (#[trigger] s[k]).ore == ore
}

/// The readings of the first `n` entries: one per ore, the first wins.
pub open spec fn readings(body: Seq<char>, key: Seq<char>, n: nat, day: i64) -> Seq<Outlook>
    decreases n,
{
    if n == 0 {
        Seq::empty()
    } else {
        let r = readings(body, key, (n - 1) as nat, day);
        match entry_reading(body, key, n - 1, day) {
            Some(o) => if has_ore(r, o.ore) { r } else { r.push(o) },
            None => r,
        }
    }
}

/// What the model answered, or `None` where the answer is no price reading
/// (no JSON object, no reading list, a list that is not an array). An empty
/// list is an answer: the news moves nothing.
pub open spec fn spec_parse_outlook(day: i64, resp: Seq<char>) -> Option<Seq<Outlook>> {
    match answer_body(resp) {
        None => None,
        Some(body) => if json_field_of(body, ""@) is Unparsed {
            None
        } else {
            match list_key(body) {
                None => None,
                Some(key) => match json_field_of(body, key) {
                    JsonField::List(n) => Some(readings(body, key, n as nat, day)),
                    _ => None,
                },
            }
        },
    }
}

fn answer_span(resp: &Vec<char>) -> (r: Option<(usize, usize)>)
    ensures
        match r {
            Some((a, b)) => first_at(resp@, '{') == Some(a as int) && last_at(resp@, '}') == Some(b as int)
                && a < b < resp@.len(),
            None => answer_body(resp@) is None,
        },
{
    let n = resp.len();
    let mut i: usize = 0;
    while i < n && resp[i] != '{'
        invariant
            i <= n,
            n == resp@.len(),
            first_at(resp@.take(i as int), '{') is None,
        decreases n - i,
    {
        assert(resp@.take(i as int + 1).drop_last() =~= resp@.take(i as int));
        i += 1;
    }
    if i >= n {
        assert(resp@.take(n as int) =~= resp@);
        return None;
    }
    assert(resp@.take(i as int + 1).drop_last() =~= resp@.take(i as int));
    proof {
        lemma_first_at_prefix(resp@, '{', i as int + 1);
    }
    let mut j: usize = n;
    assert(resp@.take(n as int) =~= resp@);
    while j > 0 && resp[j - 1] != '}'
        invariant
            j <= n,
            n == resp@.len(),
            last_at(resp@, '}') == last_at(resp@.take(j as int), '}'),
        decreases j,
    {
        assert(resp@.take(j as int).drop_last() =~= resp@.take(j as int - 1));
        j -= 1;
    }
    if j == 0 {
        assert(resp@.take(0) =~= Seq::<char>::empty());
        return None;
    }
    assert(resp@.take(j as int).last() == resp@[j as int - 1]);
    if j - 1 <= i {
        return None;
    }
    Some((i, j - 1))
}

proof fn lemma_first_at_prefix(s: Seq<char>, c: char, n: int)
    requires
        0 <= n <= s.len(),
        first_at(s.take(n), c) is Some,
    ensures
        first_at(s, c) == first_at(s.take(n), c),
    decreases s.len() - n,
{
    if n < s.len() {
        assert(s.take(n + 1).drop_last() =~= s.take(n));
        lemma_first_at_prefix(s, c, n + 1);
    } else {
        assert(s.take(n) =~= s);
    }
}

fn entry_pointer(key: &str, i: usize, field: &str) -> (p: String)
    ensures
        p@ == entry_ptr(key@, i as int, field@),
{
    let mut p = String::new();
    push_text(&mut p, key);
    push_text(&mut p, "/");
    let d = dec_string(i as i128);
    push_text(&mut p, d.as_str());
    push_text(&mut p, "/");
    push_text(&mut p, field);
    p
}

fn field_text_of(f: &JsonField) -> (r: Option<&String>)
    ensures
        match r {
            Some(s) => field_text(*f) == Some(s@),
            None => field_text(*f) is None,
        },
{
    match f {
        JsonField::Text(s) => Some(s),
        _ => None,
    }
}

fn clamp_i64(v: i64, lo: i64, hi: i64) -> (r: i64)
    requires
        lo <= hi,
    ensures
        r == clamp_to(v, lo, hi),
{
    if v < lo { lo } else if v > hi { hi } else { v }
}

fn reading_at(body: &str, key: &str, i: usize, day: i64) -> (r: Option<Outlook>)
    ensures
        r == entry_reading(body@, key@, i as int, day),
{
    let ore = match field_text_of(&json_field(body, entry_pointer(key, i, "ore").as_str())) {
        Some(t) => ore_of(t.as_str()),
        None => None,
    };
    let dir = match field_text_of(&json_field(body, entry_pointer(key, i, "direction").as_str())) {
        Some(t) => direction_of(t.as_str()),
        None => None,
    };
    let conf = match as_i64(&json_field(body, entry_pointer(key, i, "confidence").as_str())) {
        Some(c) => c,
        None => DEFAULT_CONFIDENCE,
    };
    let days = match as_i64(&json_field(body, entry_pointer(key, i, "days").as_str())) {
        Some(d) => d,
        None => DEFAULT_HORIZON_DAYS,
    };
    match (ore, dir) {
        (Some(o), Some(d)) => Some(Outlook {
            ore: o,
            direction: d,
            confidence: clamp_i64(conf, 0, 100),
            day,
            days: clamp_i64(days, 1, MAX_HORIZON_DAYS),
        }),
        _ => None,
    }
}

fn has_ore_in(s: &Vec<Outlook>, ore: Item) -> (r: bool)
    ensures
        r == has_ore(s@, ore),
{
    let mut i: usize = 0;
    while i < s.len()
        invariant
            i <= s@.len(),
            forall|k: int| 0 <= k < i ==> (#[trigger] s@[k]).ore != ore,
        decreases s@.len() - i,
    {
        if s[i].ore == ore {
            return true;
        }
        i += 1;
    }
    false
}

/// What the model answered, or `None` when the answer is not a price
/// reading. `None` lets the keyword scan's reading stand; an empty list is
/// the model saying the news moves nothing, and replaces it.
pub fn parse_outlook(day: i64, resp: &str) -> (r: Option<Vec<Outlook>>)
    ensures
        match r {
            Some(v) => spec_parse_outlook(day, resp@) == Some(v@),
            None => spec_parse_outlook(day, resp@) is None,
        },
{
    let chars = chars_of(resp);
    let (a, b) = match answer_span(&chars) {
        Some(span) => span,
        None => return None,
    };
    let len = chars.len();
    assert(b < len);
    let body_str = resp.substring_char(a, b + 1);
    let ghost body = body_str@;
    assert(answer_body(resp@) == Some(body));
    if let JsonField::Unparsed = json_field(body_str, "") {
        return None;
    }
    let key: &str = if field_is_present(&json_field(body_str, "/outlooks")) {
        "/outlooks"
    } else if field_is_present(&json_field(body_str, "/prices")) {
        "/prices"
    } else if field_is_present(&json_field(body_str, "/trends")) {
        "/trends"
    } else {
        return None;
    };
    assert(list_key(body) == Some(key@));
    let n: usize = match json_field(body_str, key) {
        JsonField::List(n) => n,
        _ => return None,
    };
    let mut out: Vec<Outlook> = Vec::new();
    let mut i: usize = 0;
    while i < n
        invariant
            i <= n,
            body == body_str@,
            out@ == readings(body, key@, i as nat, day),
        decreases n - i,
    {
        match reading_at(body_str, key, i, day) {
            Some(o) => {
                if !has_ore_in(&out, o.ore) {
                    out.push(o);
                }
            },
            None => {},
        }
        i += 1;
    }
    Some(out)
}


/// Everything but the day's readings of `s` (`Vec::retain`).
pub open spec fn other_days(s: Seq<Outlook>, day: i64) -> Seq<Outlook> {
    s.filter(not_of_day(day))
}

pub open spec fn not_of_day(day: i64) -> spec_fn(Outlook) -> bool {
    |o: Outlook| o.day != day
}

/// What the retry is told when the answer was no reading.
pub open spec fn unreadable_note() -> Seq<char> {
    "上次的回答不是可解析的 JSON，请只输出规定的 JSON 对象。"@
}

/// What taking the model's answer `resp` for `day` does to the state.
pub open spec fn spec_take_model_reading(s0: &BotState, day: i64, resp: Seq<char>, s1: &BotState) -> bool {
    if !(s0.news.phase is AskedLlm) {
        *s1 == *s0
    } else {
        match spec_parse_outlook(day, resp) {
            None => *s1 == (BotState { news: s1.news, ..*s0 })
                && (s1.news.correction matches Some(c) && c@ == unreadable_note())
                && s1.news.phase == (if s0.news.attempts >= NEWS_MAX_ATTEMPTS { ReadPhase::Done } else { ReadPhase::Idle })
                && s1.news.attempts == s0.news.attempts
                && s1.news.read_day == s0.news.read_day,
            Some(v) => *s1 == (BotState { outlooks: s1.outlooks, news: s1.news, ..*s0 })
                && s1.outlooks@ == other_days(s0.outlooks@, day) + v
                && s1.news == (NewsRead { read_day: Some(day), correction: None, phase: ReadPhase::Done, ..s0.news }),
        }
    }
}

/// Takes the model's answer for `day`: its readings replace the day's
/// keyword readings and the day is read. An answer that is no reading is
/// noted for the retry; with no ask outstanding nothing changes.
pub fn take_model_reading(state: &mut BotState, day: i64, resp: &str)
    requires
        old(state).wf(),
    ensures
        final(state).wf(),
        spec_take_model_reading(old(state), day, resp@, final(state)),
{
    if !state.news.awaits_response() {
        return;
    }
    let outlooks = match parse_outlook(day, resp) {
        Some(v) => v,
        None => {
            state.news.note_lost("上次的回答不是可解析的 JSON，请只输出规定的 JSON 对象。");
            return;
        },
    };
    let ghost pred = not_of_day(day);
    let ghost old_list = state.outlooks@;
    let mut kept: Vec<Outlook> = Vec::new();
    let mut i: usize = 0;
    while i < state.outlooks.len()
        invariant
            i <= old_list.len(),
            old_list == state.outlooks@,
            pred == not_of_day(day),
            kept@ == old_list.take(i as int).filter(pred),
            forall|k: int| 0 <= k < old_list.len() ==> (#[trigger] old_list[k]).wf(),
            forall|k: int| 0 <= k < kept@.len() ==> (#[trigger] kept@[k]).wf(),
        decreases old_list.len() - i,
    {
        proof {
            lemma_filter_step(old_list, i as int, pred);
        }
        let o = state.outlooks[i];
        assert(o == old_list[i as int]);
        assert(pred(o) == (o.day != day));
        assert(o.wf());
        if o.day != day {
            kept.push(o);
        }
        i += 1;
    }
    assert(old_list.take(old_list.len() as int) =~= old_list);
    let mut j: usize = 0;
    let ghost base = kept@;
    while j < outlooks.len()
        invariant
            j <= outlooks@.len(),
            kept@ == base + outlooks@.take(j as int),
            forall|k: int| 0 <= k < base.len() ==> (#[trigger] base[k]).wf(),
            spec_parse_outlook(day, resp@) == Some(outlooks@),
        decreases outlooks@.len() - j,
    {
        kept.push(outlooks[j]);
        assert(kept@ =~= base + outlooks@.take(j as int + 1));
        j += 1;
    }
    assert(outlooks@.take(outlooks@.len() as int) =~= outlooks@);
    proof {
        lemma_readings_wf(day, resp@, outlooks@);
        assert forall|k: int| 0 <= k < kept@.len() implies (#[trigger] kept@[k]).wf() by {
            if k < base.len() {
                assert(kept@[k] == base[k]);
                assert(base[k].wf());
            } else {
                let m = k - base.len();
                assert(kept@[k] == outlooks@[m]);
                assert(0 <= m < outlooks@.len());
                assert(outlooks@[m].wf());
            }
        }
    }
    state.outlooks = kept;
    state.news.note_read(day);
}

/// Every reading an answer gives is a well-formed one.
proof fn lemma_readings_wf(day: i64, resp: Seq<char>, v: Seq<Outlook>)
    requires
        spec_parse_outlook(day, resp) == Some(v),
    ensures
        forall|k: int| 0 <= k < v.len() ==> (#[trigger] v[k]).wf(),
{
    if let Some(body) = answer_body(resp) {
        if let Some(key) = list_key(body) {
            if let JsonField::List(n) = json_field_of(body, key) {
                lemma_readings_n_wf(body, key, n as nat, day);
            }
        }
    }
}

proof fn lemma_readings_n_wf(body: Seq<char>, key: Seq<char>, n: nat, day: i64)
    ensures
        forall|k: int| 0 <= k < readings(body, key, n, day).len() ==> (#[trigger] readings(body, key, n, day)[k]).wf(),
    decreases n,
{
    if n > 0 {
        lemma_readings_n_wf(body, key, (n - 1) as nat, day);
        let r = readings(body, key, (n - 1) as nat, day);
        match entry_reading(body, key, n - 1, day) {
            Some(o) => {
                assert(o.wf());
                if !has_ore(r, o.ore) {
                    assert forall|k: int| 0 <= k < r.push(o).len() implies (#[trigger] r.push(o)[k]).wf() by {
                        if k < r.len() {
                            assert(r.push(o)[k] == r[k]);
                        }
                    }
                }
            },
            None => {},
        }
    }
}

/// The head of `text` the prompt quotes.
pub open spec fn brief(text: Seq<char>) -> Seq<char> {
    if text.len() <= NEWS_BRIEF_CHARS { text } else { text.take(NEWS_BRIEF_CHARS as int) }
}

/// One line of the keyword scan's reading, as the prompt shows it.
pub open spec fn keyword_line(o: Outlook) -> Seq<char> {
    "  "@ + o.ore.spec_name() + " "@ + spec_direction_word(o.direction) + " ("@
        + crate::text::dec(o.confidence as int) + "%)\n"@
}

pub open spec fn keyword_lines(s: Seq<Outlook>) -> Seq<char>
    decreases s.len(),
{
    if s.len() == 0 { Seq::empty() } else { keyword_lines(s.drop_last()) + keyword_line(s.last()) }
}

pub open spec fn prompt_head() -> Seq<char> {
    "以下是游戏世界中今天的官方新闻。请推理它对矿石价格走势的影响。\n"@
        + "矿石共三种：iron(铁)、stone(石)、copper(铜)。\n"@
        + "请对每种受影响的矿石给出：direction（rise 涨价 / fall 跌价 / flat 不变）、\
         days（该走势预计持续几个游戏日，1-5）、confidence（0-100）。\n"@
        + "判据取自新闻本身：矿区停工、塌方、检修、减产、供应紧缺 → 涨；\
         复产、复工、增产、供应充足、需求下降 → 跌。\n\
         新闻与矿石价格无关时，outlooks 给空数组。\n"@
}

pub open spec fn prompt_tail() -> Seq<char> {
    "\n只输出一个 JSON 对象，不要输出其它内容，格式：\n\
         {\"outlooks\":[{\"ore\":\"iron\",\"direction\":\"rise\",\"days\":3,\"confidence\":80}]}\n"@
}

/// The prompt that hands the day's official news to the model: the task,
/// the vocabulary, the criteria, the news itself (its first 600 characters),
/// the keyword scan's reading as a hint, what the last answer got wrong, and
/// the exact JSON wanted.
pub open spec fn spec_build_prompt(day: i64, text: Seq<char>, keyword: Seq<Outlook>, correction: Option<Seq<char>>)
    -> Seq<char> {
    prompt_head()
        + ("\n新闻（第"@ + crate::text::dec(day as int) + "天）：\n"@ + brief(text) + "\n"@)
        + (if keyword.len() == 0 { "\n关键词初判：这段文字里没有读出方向。\n"@ }
           else { "\n关键词初判（仅供参考，你可以不同意）：\n"@ + keyword_lines(keyword) })
        + (match correction { Some(note) => "\n注意："@ + note + "\n"@, None => Seq::empty() })
        + prompt_tail()
}

/// The prompt names the day of the news it quotes, says when the keyword
/// scan read no direction, hands back the last answer's fault, and ends
/// with the exact JSON wanted.
pub proof fn law_prompt_lines(day: i64, text: Seq<char>, keyword: Seq<Outlook>, correction: Option<Seq<char>>)
    ensures
        ({
            let p = spec_build_prompt(day, text, keyword, correction);
            &&& has(p, "新闻（第"@ + crate::text::dec(day as int) + "天）："@)
            &&& keyword.len() == 0 ==> has(p, "关键词初判：这段文字里没有读出方向。"@)
            &&& (correction matches Some(n) ==> has(p, "注意："@ + n))
            &&& p.len() >= prompt_tail().len()
            &&& p.subrange(p.len() - prompt_tail().len(), p.len() as int) == prompt_tail()
        }),
{
    let p = spec_build_prompt(day, text, keyword, correction);
    let head = prompt_head();
    let news = "\n新闻（第"@ + crate::text::dec(day as int) + "天）：\n"@ + brief(text) + "\n"@;
    let hint = if keyword.len() == 0 { "\n关键词初判：这段文字里没有读出方向。\n"@ }
        else { "\n关键词初判（仅供参考，你可以不同意）：\n"@ + keyword_lines(keyword) };
    let note = match correction { Some(n) => "\n注意："@ + n + "\n"@, None => Seq::<char>::empty() };
    let tail = prompt_tail();
    assert(p =~= head + news + hint + note + tail);
    let m = "新闻（第"@ + crate::text::dec(day as int) + "天）："@;
    reveal_strlit("\n新闻（第");
    reveal_strlit("新闻（第");
    reveal_strlit("天）：\n");
    reveal_strlit("天）：");
    reveal_strlit("\n关键词初判：这段文字里没有读出方向。\n");
    reveal_strlit("关键词初判：这段文字里没有读出方向。");
    reveal_strlit("\n注意：");
    reveal_strlit("注意：");
    let at0: int = head.len() as int + 1;
    assert(p.subrange(at0, at0 + m.len() as int) =~= m);
    assert(occurs_at(p, m, at0));
    if keyword.len() == 0 {
        let w = "关键词初判：这段文字里没有读出方向。"@;
        let at: int = head.len() as int + news.len() as int + 1;
        assert(p.subrange(at, at + w.len() as int) =~= w);
        assert(occurs_at(p, w, at));
    }
    if let Some(n) = correction {
        let w = "注意："@ + n;
        let at: int = head.len() as int + news.len() as int + hint.len() as int + 1;
        assert(p.subrange(at, at + w.len() as int) =~= w);
        assert(occurs_at(p, w, at));
    }
    assert(p.subrange(p.len() - tail.len(), p.len() as int) =~= tail);
}

fn push_brief(s: &mut String, text: &str)
    ensures
        final(s)@ == old(s)@ + brief(text@),
{
    let n = text.unicode_len();
    if n <= NEWS_BRIEF_CHARS {
        crate::text::push_text(s, text);
    } else {
        let head = text.substring_char(0, NEWS_BRIEF_CHARS);
        crate::text::push_text(s, head);
        assert(head@ =~= text@.take(NEWS_BRIEF_CHARS as int));
    }
}

/// The prompt that hands the day's official news to the model.
pub fn build_prompt(day: i64, text: &str, keyword: &[Outlook], correction: Option<&str>) -> (p: String)
    ensures
        p@ == spec_build_prompt(day, text@, keyword@, match correction { Some(c) => Some(c@), None => None }),
{
    let mut prompt = String::new();
    crate::text::push_text(&mut prompt, "以下是游戏世界中今天的官方新闻。请推理它对矿石价格走势的影响。\n");
    crate::text::push_text(&mut prompt, "矿石共三种：iron(铁)、stone(石)、copper(铜)。\n");
    crate::text::push_text(&mut prompt, "请对每种受影响的矿石给出：direction（rise 涨价 / fall 跌价 / flat 不变）、\
         days（该走势预计持续几个游戏日，1-5）、confidence（0-100）。\n");
    crate::text::push_text(&mut prompt, "判据取自新闻本身：矿区停工、塌方、检修、减产、供应紧缺 → 涨；\
         复产、复工、增产、供应充足、需求下降 → 跌。\n\
         新闻与矿石价格无关时，outlooks 给空数组。\n");
    let ghost head = prompt@;
    assert(head =~= prompt_head());
    let mut news = String::new();
    crate::text::push_text(&mut news, "\n新闻（第");
    let d = crate::text::dec_string(day as i128);
    crate::text::push_text(&mut news, d.as_str());
    crate::text::push_text(&mut news, "天）：\n");
    push_brief(&mut news, text);
    crate::text::push_text(&mut news, "\n");
    crate::text::push_text(&mut prompt, news.as_str());
    let mut hint = String::new();
    if keyword.len() == 0 {
        crate::text::push_text(&mut hint, "\n关键词初判：这段文字里没有读出方向。\n");
    } else {
        crate::text::push_text(&mut hint, "\n关键词初判（仅供参考，你可以不同意）：\n");
        let ghost start = hint@;
        let mut i: usize = 0;
        while i < keyword.len()
            invariant
                i <= keyword@.len(),
                hint@ == start + keyword_lines(keyword@.take(i as int)),
            decreases keyword@.len() - i,
        {
            assert(keyword@.take(i as int + 1).drop_last() =~= keyword@.take(i as int));
            assert(keyword@.take(i as int + 1).last() == keyword@[i as int]);
            let o = keyword[i];
            let mut line = String::new();
            crate::text::push_text(&mut line, "  ");
            crate::text::push_text(&mut line, o.ore.name());
            crate::text::push_text(&mut line, " ");
            crate::text::push_text(&mut line, direction_word(o.direction));
            crate::text::push_text(&mut line, " (");
            let c = crate::text::dec_string(o.confidence as i128);
            crate::text::push_text(&mut line, c.as_str());
            crate::text::push_text(&mut line, "%)\n");
            assert(line@ =~= keyword_line(o));
            crate::text::push_text(&mut hint, line.as_str());
            assert(hint@ =~= start + keyword_lines(keyword@.take(i as int + 1)));
            i += 1;
        }
        assert(keyword@.take(keyword@.len() as int) =~= keyword@);
    }
    crate::text::push_text(&mut prompt, hint.as_str());
    let mut note = String::new();
    match correction {
        Some(c) => {
            crate::text::push_text(&mut note, "\n注意：");
            crate::text::push_text(&mut note, c);
            crate::text::push_text(&mut note, "\n");
        },
        None => {},
    }
    crate::text::push_text(&mut prompt, note.as_str());
    crate::text::push_text(&mut prompt, "\n只输出一个 JSON 对象，不要输出其它内容，格式：\n\
         {\"outlooks\":[{\"ore\":\"iron\",\"direction\":\"rise\",\"days\":3,\"confidence\":80}]}\n");
    assert(prompt@ =~= spec_build_prompt(day, text@, keyword@, match correction { Some(c) => Some(c@), None => None }));
    prompt
}

} // verus!
