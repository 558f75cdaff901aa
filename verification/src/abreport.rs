//! Offline multi-opponent A/B report over captured JSONL logs.
//!
//! Each captured battle is read line by line into per-day cumulative
//! objective scores and match totals; the report then renders one
//! fixed-width row per battle and, with two or more battles, the delta of
//! every later battle against the first, per objective. `score1` (tasks) is
//! only known together with the attribution error, so it is reported as
//! `s1+err`. Unparseable lines are skipped: a capture can hold a banner or a
//! partial last line, and neither may sink the comparison.

use vstd::prelude::*;
use crate::json::{JsonField, json_field, json_field_of, field_i64, field_bool, field_len, field_present,
    field_text_is, as_i64, as_bool, text_is};
use crate::text::{push_text, push_char, digits_of, dec, signed_text, pad_right, pad_left, push_digits,
    dec_string, signed_string, count_string, push_left, push_right};

verus! {

// ---------------------------------------------------------------------------
// Reading one log line
// ---------------------------------------------------------------------------

/// The kinds of record the report reads.
#[derive(Clone, Copy, Debug, PartialEq, Eq, Structural)]
pub enum LogEvent {
    Round,
    TaskEnded,
    SopReuse,
    TaskRetryInformed,
    Other,
}

/// What the report reads of one parsed log line.
#[derive(Clone, Copy, Debug)]
pub struct LogLine {
    pub event: LogEvent,
    pub day: Option<i64>,
    pub kill: Option<i64>,
    pub survival: Option<i64>,
    pub residual: Option<i64>,
    pub score: Option<i64>,
    pub task_gold: Option<i64>,
    /// The round record names the opponent's base HP (whatever its value).
    pub enemy_hp_named: bool,
    pub enemy_hp: Option<i64>,
    pub volley_enemy_hp: Option<i64>,
    pub station_hp: Option<i64>,
    pub rejected: usize,
    pub no_damage: bool,
    pub success: bool,
    pub wrong_answers: bool,
    pub staged: bool,
}

pub open spec fn event_of(f: JsonField) -> LogEvent {
    if field_text_is(f, "round"@) { LogEvent::Round }
    else if field_text_is(f, "task_ended"@) { LogEvent::TaskEnded }
    else if field_text_is(f, "sop_reuse"@) { LogEvent::SopReuse }
    else if field_text_is(f, "task_retry_informed"@) { LogEvent::TaskRetryInformed }
    else { LogEvent::Other }
}

pub open spec fn at(line: Seq<char>, pointer: &str) -> JsonField {
    json_field_of(line, pointer@)
}

/// The record a JSON line holds; `None` for a line that is not JSON.
pub open spec fn spec_read_line(line: Seq<char>) -> Option<LogLine> {
    if json_field_of(line, ""@) is Unparsed {
        None
    } else {
        Some(LogLine {
            event: event_of(at(line, "/event")),
            day: field_i64(at(line, "/data/day")),
            kill: field_i64(at(line, "/data/scoreAttr/kill")),
            survival: field_i64(at(line, "/data/scoreAttr/survival")),
            residual: field_i64(at(line, "/data/scoreAttr/residual")),
            score: field_i64(at(line, "/data/score")),
            task_gold: field_i64(at(line, "/data/taskGoldEarned")),
            enemy_hp_named: field_present(at(line, "/data/enemyStationHp")),
            enemy_hp: field_i64(at(line, "/data/enemyStationHp")),
            volley_enemy_hp: field_i64(at(line, "/data/volley/enemyStationHp")),
            station_hp: field_i64(at(line, "/data/stationHp")),
            rejected: field_len(at(line, "/data/volley/rejected")) as usize,
            no_damage: field_bool(at(line, "/data/volley/noRobotDamage")),
            success: field_bool(at(line, "/data/success")),
            wrong_answers: field_text_is(at(line, "/data/reason"), "wrong_answers"@),
            staged: field_bool(at(line, "/data/staged")),
        })
    }
}

/// Read what the report needs of one log line; `None` when it is not JSON.
pub fn read_line(line: &str) -> (r: Option<LogLine>)
    ensures
        r == spec_read_line(line@),
{
    let whole = json_field(line, "");
    if let JsonField::Unparsed = whole {
        return None;
    }
    let ev = json_field(line, "/event");
    let event = if text_is(&ev, "round") { LogEvent::Round }
        else if text_is(&ev, "task_ended") { LogEvent::TaskEnded }
        else if text_is(&ev, "sop_reuse") { LogEvent::SopReuse }
        else if text_is(&ev, "task_retry_informed") { LogEvent::TaskRetryInformed }
        else { LogEvent::Other };
    let enemy = json_field(line, "/data/enemyStationHp");
    let enemy_hp_named = match enemy {
        JsonField::Missing | JsonField::Unparsed => false,
        _ => true,
    };
    let rejected: usize = match json_field(line, "/data/volley/rejected") {
        JsonField::List(n) => n,
        _ => 0,
    };
    Some(LogLine {
        event,
        day: as_i64(&json_field(line, "/data/day")),
        kill: as_i64(&json_field(line, "/data/scoreAttr/kill")),
        survival: as_i64(&json_field(line, "/data/scoreAttr/survival")),
        residual: as_i64(&json_field(line, "/data/scoreAttr/residual")),
        score: as_i64(&json_field(line, "/data/score")),
        task_gold: as_i64(&json_field(line, "/data/taskGoldEarned")),
        enemy_hp_named,
        enemy_hp: as_i64(&enemy),
        volley_enemy_hp: as_i64(&json_field(line, "/data/volley/enemyStationHp")),
        station_hp: as_i64(&json_field(line, "/data/stationHp")),
        rejected,
        no_damage: as_bool(&json_field(line, "/data/volley/noRobotDamage")),
        success: as_bool(&json_field(line, "/data/success")),
        wrong_answers: text_is(&json_field(line, "/data/reason"), "wrong_answers"),
        staged: as_bool(&json_field(line, "/data/staged")),
    })
}

// ---------------------------------------------------------------------------
// One battle
// ---------------------------------------------------------------------------

/// Cumulative objective scores at the end of one day.
#[derive(Clone, Copy, Debug, PartialEq, Eq, Structural)]
pub struct DayRow {
    pub day: i64,
    pub kill: i64,
    pub survival: i64,
    pub residual: i64,
    pub total: i64,
    /// Advertised task gold banked so far.
    pub task_gold: i64,
    /// Our base's HP at the end of the day, and the opponent's, carried
    /// forward across the rounds that did not restate them.
    pub station_hp: Option<i64>,
    pub enemy_station_hp: Option<i64>,
}

/// One battle's objective scores, per day and at the end of the match.
#[derive(Clone, Debug)]
pub struct BattleReport {
    pub label: String,
    pub rounds: usize,
    pub days: Vec<DayRow>,
    pub kill: i64,
    pub survival: i64,
    pub residual: i64,
    pub final_total: i64,
    /// Day our station first went down (`None`: it survived the match).
    pub station_lost_day: Option<i64>,
    /// Day the opponent's station first went down.
    pub enemy_station_down_day: Option<i64>,
    pub tasks_confirmed: usize,
    pub tasks_failed: usize,
    /// Advertised gold of the task points confirmed.
    pub task_gold_earned: i64,
    /// Cached-procedure reruns that took the two-stage path.
    pub sop_staged_reuses: usize,
    /// Rejections that taught the retry something, and sessions abandoned
    /// because the judger repeated itself.
    pub retries_informed: usize,
    pub giveups_repeated: usize,
    /// Both bases' HP where the log left them.
    pub station_hp_last: Option<i64>,
    pub enemy_station_hp_last: Option<i64>,
    pub sop_reuses: usize,
    /// Volleys the judger rejected, summed over the match.
    pub volleys_rejected: usize,
    /// Rounds where every volley was accepted yet no robot lost HP.
    pub volleys_no_damage: usize,
}

/// A report as plain values.
pub struct ReportView {
    pub label: Seq<char>,
    pub rounds: nat,
    pub days: Seq<DayRow>,
    pub kill: i64,
    pub survival: i64,
    pub residual: i64,
    pub final_total: i64,
    pub station_lost_day: Option<i64>,
    pub enemy_station_down_day: Option<i64>,
    pub tasks_confirmed: nat,
    pub tasks_failed: nat,
    pub task_gold_earned: i64,
    pub sop_staged_reuses: nat,
    pub retries_informed: nat,
    pub giveups_repeated: nat,
    pub station_hp_last: Option<i64>,
    pub enemy_station_hp_last: Option<i64>,
    pub sop_reuses: nat,
    pub volleys_rejected: nat,
    pub volleys_no_damage: nat,
}

impl View for BattleReport {
    type V = ReportView;

    open spec fn view(&self) -> ReportView {
        ReportView {
            label: self.label@,
            rounds: self.rounds as nat,
            days: self.days@,
            kill: self.kill,
            survival: self.survival,
            residual: self.residual,
            final_total: self.final_total,
            station_lost_day: self.station_lost_day,
            enemy_station_down_day: self.enemy_station_down_day,
            tasks_confirmed: self.tasks_confirmed as nat,
            tasks_failed: self.tasks_failed as nat,
            task_gold_earned: self.task_gold_earned,
            sop_staged_reuses: self.sop_staged_reuses as nat,
            retries_informed: self.retries_informed as nat,
            giveups_repeated: self.giveups_repeated as nat,
            station_hp_last: self.station_hp_last,
            enemy_station_hp_last: self.enemy_station_hp_last,
            sop_reuses: self.sop_reuses as nat,
            volleys_rejected: self.volleys_rejected as nat,
            volleys_no_damage: self.volleys_no_damage as nat,
        }
    }
}

impl BattleReport {
    /// `score1` proxy: the task score plus the attribution error.
    pub fn score1_proxy(&self) -> (r: i64)
        ensures
            r == self.residual,
    {
        self.residual
    }

    /// An empty report under `label`.
    pub fn labelled(label: &str) -> (r: BattleReport)
        ensures
            r@ == empty_report(label@),
    {
        BattleReport {
            label: label.to_owned(),
            rounds: 0,
            days: Vec::new(),
            kill: 0,
            survival: 0,
            residual: 0,
            final_total: 0,
            station_lost_day: None,
            enemy_station_down_day: None,
            tasks_confirmed: 0,
            tasks_failed: 0,
            task_gold_earned: 0,
            sop_staged_reuses: 0,
            retries_informed: 0,
            giveups_repeated: 0,
            station_hp_last: None,
            enemy_station_hp_last: None,
            sop_reuses: 0,
            volleys_rejected: 0,
            volleys_no_damage: 0,
        }
    }
}

pub open spec fn empty_report(label: Seq<char>) -> ReportView {
    ReportView {
        label,
        rounds: 0,
        days: Seq::empty(),
        kill: 0,
        survival: 0,
        residual: 0,
        final_total: 0,
        station_lost_day: None,
        enemy_station_down_day: None,
        tasks_confirmed: 0,
        tasks_failed: 0,
        task_gold_earned: 0,
        sop_staged_reuses: 0,
        retries_informed: 0,
        giveups_repeated: 0,
        station_hp_last: None,
        enemy_station_hp_last: None,
        sop_reuses: 0,
        volleys_rejected: 0,
        volleys_no_damage: 0,
    }
}

impl Default for BattleReport {
    fn default() -> (r: BattleReport)
        ensures
            r@ == empty_report(Seq::empty()),
    {
        proof {
            reveal_strlit("");
        }
        assert(""@ =~= Seq::<char>::empty());
        BattleReport::labelled("")
    }
}

/// A battle being read: the report so far and what the reading carries
/// from round to round.
pub struct BattleTally {
    pub report: BattleReport,
    /// Our base has been seen standing.
    pub station_seen: bool,
    /// The opponent's base has been seen standing.
    pub enemy_station_seen: bool,
    /// The last HP each base's record carried (absent means unchanged).
    pub last_station_hp: Option<i64>,
    pub last_enemy_station_hp: Option<i64>,
}

impl BattleTally {
    /// Nothing read yet, under `label`.
    pub fn fresh(label: &str) -> (r: BattleTally)
        ensures
            r@ == fresh_tally(label@),
    {
        BattleTally {
            report: BattleReport::labelled(label),
            station_seen: false,
            enemy_station_seen: false,
            last_station_hp: None,
            last_enemy_station_hp: None,
        }
    }
}

pub open spec fn fresh_tally(label: Seq<char>) -> TallyView {
    TallyView {
        report: empty_report(label),
        station_seen: false,
        enemy_station_seen: false,
        last_station_hp: None,
        last_enemy_station_hp: None,
    }
}

pub struct TallyView {
    pub report: ReportView,
    pub station_seen: bool,
    pub enemy_station_seen: bool,
    pub last_station_hp: Option<i64>,
    pub last_enemy_station_hp: Option<i64>,
}

impl View for BattleTally {
    type V = TallyView;

    open spec fn view(&self) -> TallyView {
        TallyView {
            report: self.report@,
            station_seen: self.station_seen,
            enemy_station_seen: self.enemy_station_seen,
            last_station_hp: self.last_station_hp,
            last_enemy_station_hp: self.last_enemy_station_hp,
        }
    }
}

/// Index of the first row of `days` for `day`.
pub open spec fn day_index(days: Seq<DayRow>, day: i64) -> Option<int>
    decreases days.len(),
{
    if days.len() == 0 {
        None
    } else {
        match day_index(days.drop_last(), day) {
            Some(i) => Some(i),
            None => if days.last().day == day { Some(days.len() - 1) } else { None },
        }
    }
}

/// The day's row replaced (cumulative within a day: the last round of the
/// day wins), or appended for a new day.
pub open spec fn upsert_day(days: Seq<DayRow>, row: DayRow) -> Seq<DayRow> {
    match day_index(days, row.day) {
        Some(i) => days.update(i, row),
        None => days.push(row),
    }
}

pub open spec fn or_zero(v: Option<i64>) -> i64 {
    match v {
        Some(x) => x,
        None => 0,
    }
}

/// The HP carried forward: the record's reading when it has one.
pub open spec fn carried(last: Option<i64>, reading: Option<i64>) -> Option<i64> {
    match reading {
        Some(h) => Some(h),
        None => last,
    }
}

/// The opponent's HP a round record carries: its own field when it names
/// one, else the volley's copy.
pub open spec fn enemy_reading(rec: LogLine) -> Option<i64> {
    if rec.enemy_hp_named { rec.enemy_hp } else { rec.volley_enemy_hp }
}

pub open spec fn round_row(t: TallyView, rec: LogLine) -> DayRow {
    DayRow {
        day: or_zero(rec.day),
        kill: or_zero(rec.kill),
        survival: or_zero(rec.survival),
        residual: or_zero(rec.residual),
        total: or_zero(rec.score),
        task_gold: match rec.task_gold {
            Some(g) => g,
            None => t.report.task_gold_earned,
        },
        station_hp: carried(t.last_station_hp, rec.station_hp),
        enemy_station_hp: carried(t.last_enemy_station_hp, enemy_reading(rec)),
    }
}

/// A base standing at `hp` is seen; once seen, the first reading that is
/// not a standing base marks the day it fell.
pub open spec fn fall_step(seen: bool, lost: Option<i64>, hp: Option<i64>, day: i64) -> (bool, Option<i64>) {
    match hp {
        Some(h) if h > 0 => (true, lost),
        _ => if seen && lost is None { (seen, Some(day)) } else { (seen, lost) },
    }
}

/// What one round record does to the tally.
pub open spec fn absorb_round(t: TallyView, rec: LogLine) -> TallyView {
    let row = round_row(t, rec);
    let ours = fall_step(t.station_seen, t.report.station_lost_day, row.station_hp, row.day);
    let theirs = fall_step(t.enemy_station_seen, t.report.enemy_station_down_day, rec.volley_enemy_hp, row.day);
    TallyView {
        report: ReportView {
            rounds: t.report.rounds + 1,
            days: upsert_day(t.report.days, row),
            kill: row.kill,
            survival: row.survival,
            residual: row.residual,
            final_total: row.total,
            task_gold_earned: row.task_gold,
            station_hp_last: row.station_hp,
            enemy_station_hp_last: row.enemy_station_hp,
            station_lost_day: ours.1,
            enemy_station_down_day: theirs.1,
            volleys_rejected: t.report.volleys_rejected + rec.rejected as nat,
            volleys_no_damage: t.report.volleys_no_damage + if rec.no_damage { 1nat } else { 0nat },
            ..t.report
        },
        station_seen: ours.0,
        enemy_station_seen: theirs.0,
        last_station_hp: row.station_hp,
        last_enemy_station_hp: row.enemy_station_hp,
    }
}

/// What one record does to the tally.
pub open spec fn absorb_spec(t: TallyView, rec: LogLine) -> TallyView {
    match rec.event {
        LogEvent::Round => absorb_round(t, rec),
        LogEvent::TaskEnded => TallyView {
            report: ReportView {
                tasks_confirmed: t.report.tasks_confirmed + if rec.success { 1nat } else { 0nat },
                tasks_failed: t.report.tasks_failed + if rec.success { 0nat } else { 1nat },
                giveups_repeated: t.report.giveups_repeated + if rec.wrong_answers { 1nat } else { 0nat },
                ..t.report
            },
            ..t
        },
        LogEvent::SopReuse => TallyView {
            report: ReportView {
                sop_reuses: t.report.sop_reuses + 1,
                sop_staged_reuses: t.report.sop_staged_reuses + if rec.staged { 1nat } else { 0nat },
                ..t.report
            },
            ..t
        },
        LogEvent::TaskRetryInformed => TallyView {
            report: ReportView { retries_informed: t.report.retries_informed + 1, ..t.report },
            ..t
        },
        LogEvent::Other => t,
    }
}

/// Every counter of the tally is below `bound`.
pub open spec fn counts_below(t: TallyView, bound: int) -> bool {
    &&& t.report.rounds < bound
    &&& t.report.tasks_confirmed < bound
    &&& t.report.tasks_failed < bound
    &&& t.report.sop_staged_reuses < bound
    &&& t.report.retries_informed < bound
    &&& t.report.giveups_repeated < bound
    &&& t.report.sop_reuses < bound
    &&& t.report.volleys_no_damage < bound
    &&& t.report.days.len() < bound
}

fn find_day(days: &Vec<DayRow>, day: i64) -> (r: Option<usize>)
    ensures
        match r {
            Some(i) => day_index(days@, day) == Some(i as int) && i < days@.len(),
            None => day_index(days@, day) is None,
        },
{
    let mut i: usize = 0;
    while i < days.len()
        invariant
            i <= days@.len(),
            day_index(days@.take(i as int), day) is None,
        decreases days@.len() - i,
    {
        assert(days@.take(i as int + 1).drop_last() =~= days@.take(i as int));
        if days[i].day == day {
            assert(day_index(days@.take(i as int + 1), day) == Some(i as int));
            proof {
                lemma_day_index_prefix(days@, i as int + 1, day);
            }
            return Some(i);
        }
        i += 1;
    }
    assert(days@.take(days@.len() as int) =~= days@);
    None
}

proof fn lemma_day_index_prefix(days: Seq<DayRow>, k: int, day: i64)
    requires
        0 <= k <= days.len(),
        day_index(days.take(k), day) is Some,
    ensures
        day_index(days, day) == day_index(days.take(k), day),
    decreases days.len() - k,
{
    if k < days.len() {
        assert(days.take(k + 1).drop_last() =~= days.take(k));
        lemma_day_index_prefix(days, k + 1, day);
    } else {
        assert(days.take(k) =~= days);
    }
}

/// Fold one parsed record into the tally.
pub fn absorb(t: BattleTally, rec: &LogLine) -> (r: BattleTally)
    requires
        counts_below(t@, usize::MAX as int),
    ensures
        r@ == saturated(absorb_spec(t@, *rec)),
{
    let mut t = t;
    match rec.event {
        LogEvent::Round => {
            return absorb_round_exec(t, rec);
        },
        LogEvent::TaskEnded => {
            if rec.success {
                t.report.tasks_confirmed = t.report.tasks_confirmed + 1;
            } else {
                t.report.tasks_failed = t.report.tasks_failed + 1;
            }
            if rec.wrong_answers {
                t.report.giveups_repeated = t.report.giveups_repeated + 1;
            }
        },
        LogEvent::SopReuse => {
            t.report.sop_reuses = t.report.sop_reuses + 1;
            if rec.staged {
                t.report.sop_staged_reuses = t.report.sop_staged_reuses + 1;
            }
        },
        LogEvent::TaskRetryInformed => {
            t.report.retries_informed = t.report.retries_informed + 1;
        },
        LogEvent::Other => {},
    }
    t
}

/// The report's volley tally saturates at the machine limit.
pub open spec fn saturated(s: TallyView) -> TallyView {
    TallyView { report: ReportView {
        volleys_rejected: if s.report.volleys_rejected <= usize::MAX { s.report.volleys_rejected }
            else { usize::MAX as nat },
        ..s.report }, ..s }
}

fn value_or(v: Option<i64>, d: i64) -> (r: i64)
    ensures
        r == match v { Some(x) => x, None => d },
{
    match v {
        Some(x) => x,
        None => d,
    }
}

fn carry(last: Option<i64>, reading: Option<i64>) -> (r: Option<i64>)
    ensures
        r == carried(last, reading),
{
    match reading {
        Some(h) => Some(h),
        None => last,
    }
}

fn bump(b: bool) -> (r: usize)
    ensures
        r == if b { 1nat } else { 0nat },
{
    if b { 1 } else { 0 }
}

fn fall(seen: bool, lost: Option<i64>, hp: Option<i64>, day: i64) -> (r: (bool, Option<i64>))
    ensures
        r == fall_step(seen, lost, hp, day),
{
    match hp {
        Some(h) if h > 0 => (true, lost),
        _ => if seen && lost.is_none() { (seen, Some(day)) } else { (seen, lost) },
    }
}

fn absorb_round_exec(t: BattleTally, rec: &LogLine) -> (r: BattleTally)
    requires
        counts_below(t@, usize::MAX as int),
        rec.event == LogEvent::Round,
    ensures
        r@ == saturated(absorb_round(t@, *rec)),
{
    let ghost t0 = t@;
    let day = value_or(rec.day, 0);
    let last_enemy = carry(t.last_enemy_station_hp, enemy_hp_of(rec));
    let last_station = carry(t.last_station_hp, rec.station_hp);
    let row = DayRow {
        day,
        kill: value_or(rec.kill, 0),
        survival: value_or(rec.survival, 0),
        residual: value_or(rec.residual, 0),
        total: value_or(rec.score, 0),
        task_gold: value_or(rec.task_gold, t.report.task_gold_earned),
        station_hp: last_station,
        enemy_station_hp: last_enemy,
    };
    let ours = fall(t.station_seen, t.report.station_lost_day, last_station, day);
    let theirs = fall(t.enemy_station_seen, t.report.enemy_station_down_day, rec.volley_enemy_hp, day);
    let rejected = t.report.volleys_rejected.saturating_add(rec.rejected);
    let dry = t.report.volleys_no_damage + bump(rec.no_damage);
    let old_report = t.report;
    let mut days = old_report.days;
    let ghost days0 = days@;
    match find_day(&days, day) {
        Some(i) => {
            days.set(i, row);
        },
        None => {
            days.push(row);
        },
    }
    assert(days@ =~= upsert_day(days0, row));
    let report = BattleReport {
        label: old_report.label,
        rounds: old_report.rounds + 1,
        days,
        kill: row.kill,
        survival: row.survival,
        residual: row.residual,
        final_total: row.total,
        station_lost_day: ours.1,
        enemy_station_down_day: theirs.1,
        tasks_confirmed: old_report.tasks_confirmed,
        tasks_failed: old_report.tasks_failed,
        task_gold_earned: row.task_gold,
        sop_staged_reuses: old_report.sop_staged_reuses,
        retries_informed: old_report.retries_informed,
        giveups_repeated: old_report.giveups_repeated,
        station_hp_last: last_station,
        enemy_station_hp_last: last_enemy,
        sop_reuses: old_report.sop_reuses,
        volleys_rejected: rejected,
        volleys_no_damage: dry,
    };
    let r = BattleTally {
        report,
        station_seen: ours.0,
        enemy_station_seen: theirs.0,
        last_station_hp: last_station,
        last_enemy_station_hp: last_enemy,
    };
    proof {
        let want = saturated(absorb_round(t0, *rec));
        assert(row == round_row(t0, *rec));
        assert(ours == fall_step(t0.station_seen, t0.report.station_lost_day, row.station_hp, row.day));
        assert(theirs == fall_step(t0.enemy_station_seen, t0.report.enemy_station_down_day, rec.volley_enemy_hp, row.day));
        assert(r@.report.days == want.report.days);
        assert(r@.report.label == want.report.label);
        assert(r@.report.volleys_rejected == want.report.volleys_rejected);
        assert(r@.report == want.report);
    }
    r
}

fn enemy_hp_of(rec: &LogLine) -> (r: Option<i64>)
    ensures
        r == enemy_reading(*rec),
{
    if rec.enemy_hp_named { rec.enemy_hp } else { rec.volley_enemy_hp }
}

/// The tally after reading `lines` in order; lines that are not JSON are
/// skipped.
pub open spec fn tally_lines(t: TallyView, lines: Seq<Seq<char>>) -> TallyView
    decreases lines.len(),
{
    if lines.len() == 0 {
        t
    } else {
        let before = tally_lines(t, lines.drop_last());
        match spec_read_line(lines.last()) {
            Some(rec) => saturated(absorb_spec(before, rec)),
            None => before,
        }
    }
}

/// How many of `lines` record a task session that ended with the given
/// outcome.
pub open spec fn ended_count(lines: Seq<Seq<char>>, success: bool) -> nat
    decreases lines.len(),
{
    if lines.len() == 0 {
        0
    } else {
        ended_count(lines.drop_last(), success) + match spec_read_line(lines.last()) {
            Some(rec) => if rec.event == LogEvent::TaskEnded && rec.success == success { 1nat } else { 0nat },
            None => 0nat,
        }
    }
}

/// One ended session moves exactly one count: a success adds one to the
/// confirmed tasks and leaves the failures alone, a failure the reverse.
pub proof fn law_task_end_counts_once(t: TallyView, rec: LogLine)
    requires
        rec.event == LogEvent::TaskEnded,
    ensures
        rec.success ==> absorb_spec(t, rec).report.tasks_confirmed == t.report.tasks_confirmed + 1
            && absorb_spec(t, rec).report.tasks_failed == t.report.tasks_failed,
        !rec.success ==> absorb_spec(t, rec).report.tasks_failed == t.report.tasks_failed + 1
            && absorb_spec(t, rec).report.tasks_confirmed == t.report.tasks_confirmed,
{
}

/// Over a whole log, the confirmed tasks are the sessions that ended in
/// success and the failed tasks those that ended otherwise; no other record
/// moves either count.
pub proof fn law_task_counts(t: TallyView, lines: Seq<Seq<char>>)
    ensures
        tally_lines(t, lines).report.tasks_confirmed == t.report.tasks_confirmed + ended_count(lines, true),
        tally_lines(t, lines).report.tasks_failed == t.report.tasks_failed + ended_count(lines, false),
    decreases lines.len(),
{
    if lines.len() > 0 {
        law_task_counts(t, lines.drop_last());
    }
}

pub open spec fn line_views(lines: Seq<String>) -> Seq<Seq<char>> {
    lines.map_values(|l: String| l@)
}

proof fn lemma_day_index_in(days: Seq<DayRow>, day: i64)
    ensures
        day_index(days, day) matches Some(i) ==> 0 <= i < days.len(),
    decreases days.len(),
{
    if days.len() > 0 {
        lemma_day_index_in(days.drop_last(), day);
    }
}

proof fn lemma_absorb_counts(t: TallyView, rec: LogLine, bound: int)
    requires
        counts_below(t, bound),
    ensures
        counts_below(saturated(absorb_spec(t, rec)), bound + 1),
{
    lemma_day_index_in(t.report.days, or_zero(rec.day));
}

/// Read one captured battle: every line in order, unparseable lines
/// skipped, into the battle's report under `label`.
pub fn parse_battle(label: &str, lines: &[String]) -> (r: BattleReport)
    ensures
        r@ == tally_lines(fresh_tally(label@), line_views(lines@)).report,
{
    let mut tally = BattleTally::fresh(label);
    let mut i: usize = 0;
    while i < lines.len()
        invariant
            i <= lines@.len(),
            tally@ == tally_lines(fresh_tally(label@), line_views(lines@.take(i as int))),
            counts_below(tally@, i as int + 1),
        decreases lines@.len() - i,
    {
        assert(line_views(lines@.take(i as int + 1)).drop_last() =~= line_views(lines@.take(i as int)));
        assert(line_views(lines@.take(i as int + 1)).last() == lines@[i as int]@);
        match read_line(lines[i].as_str()) {
            Some(rec) => {
                proof {
                    lemma_absorb_counts(tally@, rec, i as int + 1);
                }
                tally = absorb(tally, &rec);
            },
            None => {},
        }
        i += 1;
    }
    assert(lines@.take(lines@.len() as int) =~= lines@);
    tally.report
}

// ---------------------------------------------------------------------------
// The table
// ---------------------------------------------------------------------------

pub open spec fn hp_text(v: Option<i64>) -> Seq<char> {
    match v {
        Some(h) => dec(h as int),
        None => seq!['-'],
    }
}

/// A day as `d<n>`, or `-` for none.
pub open spec fn day_text(v: Option<i64>) -> Seq<char> {
    match v {
        Some(d) => seq!['d'] + dec(d as int),
        None => seq!['-'],
    }
}

pub open spec fn pair_text(a: nat, b: nat) -> Seq<char> {
    digits_of(a) + seq!['/'] + digits_of(b)
}

pub open spec fn header_text() -> Seq<char> {
    Seq::empty()
        + (pad_right("battle"@, 20) + seq![' '])
        + (pad_left("rounds"@, 6) + seq![' '])
        + (pad_left("final"@, 8) + seq![' '])
        + (pad_left("kill"@, 6) + seq![' '])
        + (pad_left("surv"@, 6) + seq![' '])
        + (pad_left("s1+err"@, 7) + seq![' '])
        + (pad_left("gold"@, 6) + seq![' '])
        + (pad_left("tasks ok/bad"@, 9) + seq![' '])
        + (pad_left("sop"@, 4) + seq![' '])
        + (pad_left("lost"@, 6) + seq![' '])
        + (pad_left("enemy"@, 6) + seq![' '])
        + (pad_left("reject"@, 7) + seq![' '])
        + (pad_left("dry"@, 5) + seq![' '])
        + (pad_left("hp"@, 9) + seq![' '])
        + (pad_left("ehp"@, 9) + seq![' '])
        + (pad_left("inf"@, 3) + seq!['/'])
        + (pad_right("rep"@, 3) + seq!['\n'])
}

/// One battle's row of the table.
pub open spec fn row_text(r: ReportView) -> Seq<char> {
    row_head(r) + row_tail(r)
}

/// One later battle's delta against the baseline.
pub open spec fn delta_text(r: ReportView, base: ReportView) -> Seq<char> {
    Seq::empty()
        + "delta "@
        + (pad_right(r.label + " - "@ + base.label, 14) + seq![' '])
        + (pad_left(Seq::empty(), 6) + seq![' '])
        + (pad_left(signed_text(r.final_total - base.final_total), 8) + seq![' '])
        + (pad_left(signed_text(r.kill - base.kill), 6) + seq![' '])
        + (pad_left(signed_text(r.survival - base.survival), 6) + seq![' '])
        + (pad_left(signed_text(r.residual - base.residual), 7) + seq![' '])
        + (pad_left(signed_text(r.task_gold_earned - base.task_gold_earned), 6) + seq![' '])
        + (pad_left(signed_text(r.tasks_confirmed - base.tasks_confirmed) + seq!['/']
            + signed_text(r.tasks_failed - base.tasks_failed), 9) + seq![' '])
        + (pad_left(signed_text(r.sop_reuses - base.sop_reuses), 4) + seq!['\n'])
}

pub open spec fn rows_text(rs: Seq<ReportView>) -> Seq<char>
    decreases rs.len(),
{
    if rs.len() == 0 { Seq::empty() } else { rows_text(rs.drop_last()) + row_text(rs.last()) }
}

pub open spec fn deltas_text(rs: Seq<ReportView>, base: ReportView) -> Seq<char>
    decreases rs.len(),
{
    if rs.len() == 0 { Seq::empty() } else { deltas_text(rs.drop_last(), base) + delta_text(rs.last(), base) }
}

// ---------------------------------------------------------------------------
// The table's lines
// ---------------------------------------------------------------------------

/// `s` holds no line break.
#[verifier::opaque]
pub open spec fn no_nl(s: Seq<char>) -> bool {
    forall|i: int| 0 <= i < s.len() ==> s[i] != '\n'
}

/// `s` is one line: text without a break, then the break.
pub open spec fn one_line(s: Seq<char>) -> bool {
    s.len() > 0 && s.last() == '\n' && no_nl(s.drop_last())
}

proof fn lemma_cat(a: Seq<char>, b: Seq<char>)
    requires
        no_nl(a),
        no_nl(b),
    ensures
        no_nl(a + b),
{
    reveal(no_nl);
    assert forall|i: int| 0 <= i < (a + b).len() implies (a + b)[i] != '\n' by {
        if i < a.len() {
            assert((a + b)[i] == a[i]);
        } else {
            assert((a + b)[i] == b[i - a.len()]);
        }
    }
}

proof fn lemma_digits_no_nl(n: nat)
    ensures
        no_nl(digits_of(n)),
    decreases n,
{
    reveal(no_nl);
    if n >= 10 {
        lemma_digits_no_nl(n / 10);
        lemma_cat(digits_of(n / 10), seq![crate::text::digit_char((n % 10) as int)]);
    }
}

proof fn lemma_dec_no_nl(i: int)
    ensures
        no_nl(dec(i)),
        no_nl(signed_text(i)),
{
    reveal(no_nl);
    if i < 0 {
        lemma_digits_no_nl((-i) as nat);
        lemma_cat(seq!['-'], digits_of((-i) as nat));
    } else {
        lemma_digits_no_nl(i as nat);
        lemma_cat(seq!['+'], digits_of(i as nat));
    }
}

/// A padded field followed by one separator, free of breaks.
proof fn lemma_field(s: Seq<char>, w: nat, sep: char, left: bool)
    requires
        no_nl(s),
        sep != '\n',
    ensures
        no_nl((if left { pad_left(s, w) } else { pad_right(s, w) }) + seq![sep]),
{
    let sp = crate::text::spaces((w - s.len()) as nat);
    assert(no_nl(sp)) by { reveal(no_nl); }
    assert(no_nl(seq![sep])) by { reveal(no_nl); }
    lemma_cat(s, sp);
    lemma_cat(sp, s);
    let f = if left { pad_left(s, w) } else { pad_right(s, w) };
    lemma_cat(f, seq![sep]);
}

proof fn lemma_last_field(s: Seq<char>, w: nat, left: bool)
    requires
        no_nl(s),
    ensures
        no_nl(if left { pad_left(s, w) } else { pad_right(s, w) }),
{
    let sp = crate::text::spaces((w - s.len()) as nat);
    assert(no_nl(sp)) by { reveal(no_nl); }
    lemma_cat(s, sp);
    lemma_cat(sp, s);
}

/// A text of fields ending in a break is one line.
proof fn lemma_line(body: Seq<char>)
    requires
        no_nl(body),
    ensures
        one_line(body + seq!['\n']),
{
    assert((body + seq!['\n']).drop_last() =~= body);
}

proof fn lemma_opt_no_nl(v: Option<i64>)
    ensures
        no_nl(hp_text(v)),
        no_nl(day_text(v)),
{
    assert(no_nl(seq!['-'])) by { reveal(no_nl); }
    assert(no_nl(seq!['d'])) by { reveal(no_nl); }
    if let Some(d) = v {
        lemma_dec_no_nl(d as int);
        lemma_cat(seq!['d'], dec(d as int));
    }
}

proof fn lemma_pair_no_nl(a: nat, b: nat)
    ensures
        no_nl(pair_text(a, b)),
{
    lemma_digits_no_nl(a);
    lemma_digits_no_nl(b);
    assert(no_nl(seq!['/'])) by { reveal(no_nl); }
    lemma_cat(digits_of(a), seq!['/']);
    lemma_cat(digits_of(a) + seq!['/'], digits_of(b));
}

pub open spec fn row_head(r: ReportView) -> Seq<char> {
    Seq::empty()
        + (pad_right(r.label, 20) + seq![' '])
        + (pad_left(digits_of(r.rounds), 6) + seq![' '])
        + (pad_left(dec(r.final_total as int), 8) + seq![' '])
        + (pad_left(dec(r.kill as int), 6) + seq![' '])
        + (pad_left(dec(r.survival as int), 6) + seq![' '])
        + (pad_left(dec(r.residual as int), 7) + seq![' '])
        + (pad_left(dec(r.task_gold_earned as int), 6) + seq![' '])
        + (pad_left(pair_text(r.tasks_confirmed, r.tasks_failed), 9) + seq![' '])
}

pub open spec fn row_tail(r: ReportView) -> Seq<char> {
    Seq::empty()
        + (pad_left(pair_text(r.sop_staged_reuses, r.sop_reuses), 4) + seq![' '])
        + (pad_left(day_text(r.station_lost_day), 6) + seq![' '])
        + (pad_left(day_text(r.enemy_station_down_day), 6) + seq![' '])
        + (pad_left(digits_of(r.volleys_rejected), 7) + seq![' '])
        + (pad_left(digits_of(r.volleys_no_damage), 5) + seq![' '])
        + (pad_left(hp_text(r.station_hp_last), 9) + seq![' '])
        + (pad_left(hp_text(r.enemy_station_hp_last), 9) + seq![' '])
        + (pad_left(digits_of(r.retries_informed), 3) + seq!['/'])
        + (pad_right(digits_of(r.giveups_repeated), 3) + seq!['\n'])
}

proof fn lemma_prefix(a: Seq<char>, b: Seq<char>, n: int)
    requires
        0 <= n <= a.len(),
    ensures
        (a + b).subrange(0, n) == a.subrange(0, n),
{
    assert((a + b).subrange(0, n) =~= a.subrange(0, n));
}

proof fn lemma_row_head_prefix(r: ReportView)
    ensures
        row_head(r).subrange(0, r.label.len() as int) == r.label,
{
    let n = r.label.len() as int;
    let p = pad_right(r.label, 20);
    lemma_prefix(r.label, crate::text::spaces((20 - r.label.len()) as nat), n);
    assert(r.label.subrange(0, n) =~= r.label);
    assert(p.subrange(0, n) == r.label);
    lemma_prefix(p, seq![' '], n);
    let f1 = p + seq![' '];
    let e = Seq::<char>::empty();
    lemma_prefix(e + f1, Seq::empty(), n);
    assert((e + f1) =~= f1);
    let c1 = e + f1;
    let c2 = c1 + (pad_left(digits_of(r.rounds), 6) + seq![' ']);
    lemma_prefix(c1, pad_left(digits_of(r.rounds), 6) + seq![' '], n);
    let c3 = c2 + (pad_left(dec(r.final_total as int), 8) + seq![' ']);
    lemma_prefix(c2, pad_left(dec(r.final_total as int), 8) + seq![' '], n);
    let c4 = c3 + (pad_left(dec(r.kill as int), 6) + seq![' ']);
    lemma_prefix(c3, pad_left(dec(r.kill as int), 6) + seq![' '], n);
    let c5 = c4 + (pad_left(dec(r.survival as int), 6) + seq![' ']);
    lemma_prefix(c4, pad_left(dec(r.survival as int), 6) + seq![' '], n);
    let c6 = c5 + (pad_left(dec(r.residual as int), 7) + seq![' ']);
    lemma_prefix(c5, pad_left(dec(r.residual as int), 7) + seq![' '], n);
    let c7 = c6 + (pad_left(dec(r.task_gold_earned as int), 6) + seq![' ']);
    lemma_prefix(c6, pad_left(dec(r.task_gold_earned as int), 6) + seq![' '], n);
    lemma_prefix(c7, pad_left(pair_text(r.tasks_confirmed, r.tasks_failed), 9) + seq![' '], n);
}

proof fn lemma_row_head(r: ReportView)
    requires
        no_nl(r.label),
    ensures
        no_nl(row_head(r)),
{
    lemma_digits_no_nl(r.rounds);
    lemma_dec_no_nl(r.final_total as int);
    lemma_dec_no_nl(r.kill as int);
    lemma_dec_no_nl(r.survival as int);
    lemma_dec_no_nl(r.residual as int);
    lemma_dec_no_nl(r.task_gold_earned as int);
    lemma_pair_no_nl(r.tasks_confirmed, r.tasks_failed);
    let f1 = pad_right(r.label, 20) + seq![' '];
    let f2 = pad_left(digits_of(r.rounds), 6) + seq![' '];
    let f3 = pad_left(dec(r.final_total as int), 8) + seq![' '];
    let f4 = pad_left(dec(r.kill as int), 6) + seq![' '];
    let f5 = pad_left(dec(r.survival as int), 6) + seq![' '];
    let f6 = pad_left(dec(r.residual as int), 7) + seq![' '];
    let f7 = pad_left(dec(r.task_gold_earned as int), 6) + seq![' '];
    let f8 = pad_left(pair_text(r.tasks_confirmed, r.tasks_failed), 9) + seq![' '];
    lemma_field(r.label, 20, ' ', false);
    lemma_field(digits_of(r.rounds), 6, ' ', true);
    lemma_field(dec(r.final_total as int), 8, ' ', true);
    lemma_field(dec(r.kill as int), 6, ' ', true);
    lemma_field(dec(r.survival as int), 6, ' ', true);
    lemma_field(dec(r.residual as int), 7, ' ', true);
    lemma_field(dec(r.task_gold_earned as int), 6, ' ', true);
    lemma_field(pair_text(r.tasks_confirmed, r.tasks_failed), 9, ' ', true);
    let e = Seq::<char>::empty();
    assert(no_nl(e)) by { reveal(no_nl); }
    let b1 = e + f1; lemma_cat(e, f1);
    let b2 = b1 + f2; lemma_cat(b1, f2);
    let b3 = b2 + f3; lemma_cat(b2, f3);
    let b4 = b3 + f4; lemma_cat(b3, f4);
    let b5 = b4 + f5; lemma_cat(b4, f5);
    let b6 = b5 + f6; lemma_cat(b5, f6);
    let b7 = b6 + f7; lemma_cat(b6, f7);
    lemma_cat(b7, f8);
    assert(row_head(r) == b7 + f8);
}

proof fn lemma_row_tail(r: ReportView)
    ensures
        one_line(row_tail(r)),
{
    lemma_pair_no_nl(r.sop_staged_reuses, r.sop_reuses);
    lemma_opt_no_nl(r.station_lost_day);
    lemma_opt_no_nl(r.enemy_station_down_day);
    lemma_digits_no_nl(r.volleys_rejected);
    lemma_digits_no_nl(r.volleys_no_damage);
    lemma_opt_no_nl(r.station_hp_last);
    lemma_opt_no_nl(r.enemy_station_hp_last);
    lemma_digits_no_nl(r.retries_informed);
    lemma_digits_no_nl(r.giveups_repeated);
    let f9 = pad_left(pair_text(r.sop_staged_reuses, r.sop_reuses), 4) + seq![' '];
    let f10 = pad_left(day_text(r.station_lost_day), 6) + seq![' '];
    let f11 = pad_left(day_text(r.enemy_station_down_day), 6) + seq![' '];
    let f12 = pad_left(digits_of(r.volleys_rejected), 7) + seq![' '];
    let f13 = pad_left(digits_of(r.volleys_no_damage), 5) + seq![' '];
    let f14 = pad_left(hp_text(r.station_hp_last), 9) + seq![' '];
    let f15 = pad_left(hp_text(r.enemy_station_hp_last), 9) + seq![' '];
    let g16 = pad_left(digits_of(r.retries_informed), 3) + seq!['/'];
    let g17 = pad_right(digits_of(r.giveups_repeated), 3);
    lemma_field(pair_text(r.sop_staged_reuses, r.sop_reuses), 4, ' ', true);
    lemma_field(day_text(r.station_lost_day), 6, ' ', true);
    lemma_field(day_text(r.enemy_station_down_day), 6, ' ', true);
    lemma_field(digits_of(r.volleys_rejected), 7, ' ', true);
    lemma_field(digits_of(r.volleys_no_damage), 5, ' ', true);
    lemma_field(hp_text(r.station_hp_last), 9, ' ', true);
    lemma_field(hp_text(r.enemy_station_hp_last), 9, ' ', true);
    lemma_field(digits_of(r.retries_informed), 3, '/', true);
    lemma_last_field(digits_of(r.giveups_repeated), 3, false);
    let e = Seq::<char>::empty();
    assert(no_nl(e)) by { reveal(no_nl); }
    let b0 = e + f9; lemma_cat(e, f9);
    let b1 = b0 + f10; lemma_cat(b0, f10);
    let b2 = b1 + f11; lemma_cat(b1, f11);
    let b3 = b2 + f12; lemma_cat(b2, f12);
    let b4 = b3 + f13; lemma_cat(b3, f13);
    let b5 = b4 + f14; lemma_cat(b4, f14);
    let b6 = b5 + f15; lemma_cat(b5, f15);
    let b7 = b6 + g16; lemma_cat(b6, g16);
    lemma_cat(b7, g17);
    assert(row_tail(r) =~= (b7 + g17) + seq!['\n']);
    lemma_line(b7 + g17);
}

proof fn lemma_row_line(r: ReportView)
    requires
        no_nl(r.label),
    ensures
        one_line(row_text(r)),
        row_text(r).subrange(0, r.label.len() as int) == r.label,
{
    lemma_row_head(r);
    lemma_row_head_prefix(r);
    lemma_row_tail(r);
    let h = row_head(r);
    let t = row_tail(r);
    lemma_cat(h, t.drop_last());
    assert((h + t).drop_last() =~= h + t.drop_last());
    lemma_prefix(h, t, r.label.len() as int);
}

pub open spec fn delta_body(r: ReportView, base: ReportView) -> Seq<char> {
    Seq::empty()
        + "delta "@
        + (pad_right(r.label + " - "@ + base.label, 14) + seq![' '])
        + (pad_left(Seq::empty(), 6) + seq![' '])
        + (pad_left(signed_text(r.final_total - base.final_total), 8) + seq![' '])
        + (pad_left(signed_text(r.kill - base.kill), 6) + seq![' '])
        + (pad_left(signed_text(r.survival - base.survival), 6) + seq![' '])
        + (pad_left(signed_text(r.residual - base.residual), 7) + seq![' '])
        + (pad_left(signed_text(r.task_gold_earned - base.task_gold_earned), 6) + seq![' '])
        + (pad_left(signed_text(r.tasks_confirmed - base.tasks_confirmed) + seq!['/']
            + signed_text(r.tasks_failed - base.tasks_failed), 9) + seq![' '])
        + pad_left(signed_text(r.sop_reuses - base.sop_reuses), 4)
}

proof fn lemma_delta_body(r: ReportView, base: ReportView)
    requires
        no_nl(r.label),
        no_nl(base.label),
    ensures
        no_nl(delta_body(r, base)),
{
    reveal_strlit("delta ");
    reveal_strlit(" - ");
    let name = r.label + " - "@ + base.label;
    assert(no_nl(" - "@)) by { reveal(no_nl); }
    assert(no_nl(seq!['/'])) by { reveal(no_nl); }
    lemma_cat(r.label, " - "@);
    lemma_cat(r.label + " - "@, base.label);
    lemma_dec_no_nl(r.final_total - base.final_total);
    lemma_dec_no_nl(r.kill - base.kill);
    lemma_dec_no_nl(r.survival - base.survival);
    lemma_dec_no_nl(r.residual - base.residual);
    lemma_dec_no_nl(r.task_gold_earned - base.task_gold_earned);
    lemma_dec_no_nl(r.tasks_confirmed - base.tasks_confirmed);
    lemma_dec_no_nl(r.tasks_failed - base.tasks_failed);
    lemma_dec_no_nl(r.sop_reuses - base.sop_reuses);
    let tasks = signed_text(r.tasks_confirmed - base.tasks_confirmed) + seq!['/']
        + signed_text(r.tasks_failed - base.tasks_failed);
    lemma_cat(signed_text(r.tasks_confirmed - base.tasks_confirmed), seq!['/']);
    lemma_cat(signed_text(r.tasks_confirmed - base.tasks_confirmed) + seq!['/'],
        signed_text(r.tasks_failed - base.tasks_failed));
    let f0 = "delta "@;
    let f1 = pad_right(name, 14) + seq![' '];
    let f2 = pad_left(Seq::empty(), 6) + seq![' '];
    let f3 = pad_left(signed_text(r.final_total - base.final_total), 8) + seq![' '];
    let f4 = pad_left(signed_text(r.kill - base.kill), 6) + seq![' '];
    let f5 = pad_left(signed_text(r.survival - base.survival), 6) + seq![' '];
    let f6 = pad_left(signed_text(r.residual - base.residual), 7) + seq![' '];
    let f7 = pad_left(signed_text(r.task_gold_earned - base.task_gold_earned), 6) + seq![' '];
    let f8 = pad_left(tasks, 9) + seq![' '];
    let f9 = pad_left(signed_text(r.sop_reuses - base.sop_reuses), 4);
    assert(no_nl(f0)) by { reveal(no_nl); }
    assert(no_nl(Seq::<char>::empty())) by { reveal(no_nl); }
    lemma_field(name, 14, ' ', false);
    lemma_field(Seq::empty(), 6, ' ', true);
    lemma_field(signed_text(r.final_total - base.final_total), 8, ' ', true);
    lemma_field(signed_text(r.kill - base.kill), 6, ' ', true);
    lemma_field(signed_text(r.survival - base.survival), 6, ' ', true);
    lemma_field(signed_text(r.residual - base.residual), 7, ' ', true);
    lemma_field(signed_text(r.task_gold_earned - base.task_gold_earned), 6, ' ', true);
    lemma_field(tasks, 9, ' ', true);
    lemma_last_field(signed_text(r.sop_reuses - base.sop_reuses), 4, true);
    let e = Seq::<char>::empty();
    assert(no_nl(e)) by { reveal(no_nl); }
    let b00 = e + f0; lemma_cat(e, f0);
    let b1 = b00 + f1; lemma_cat(b00, f1);
    let b2 = b1 + f2; lemma_cat(b1, f2);
    let b3 = b2 + f3; lemma_cat(b2, f3);
    let b4 = b3 + f4; lemma_cat(b3, f4);
    let b5 = b4 + f5; lemma_cat(b4, f5);
    let b6 = b5 + f6; lemma_cat(b5, f6);
    let b7 = b6 + f7; lemma_cat(b6, f7);
    let b8 = b7 + f8; lemma_cat(b7, f8);
    lemma_cat(b8, f9);
    assert(delta_body(r, base) == b8 + f9);
}

proof fn lemma_delta_prefix(r: ReportView, base: ReportView)
    ensures
        delta_body(r, base).subrange(0, (6 + r.label.len() + 3 + base.label.len()) as int)
            == "delta "@ + r.label + " - "@ + base.label,
{
    reveal_strlit("delta ");
    reveal_strlit(" - ");
    let name = r.label + " - "@ + base.label;
    let m: int = 6 + name.len() as int;
    let p = pad_right(name, 14);
    lemma_prefix(name, crate::text::spaces((14 - name.len()) as nat), name.len() as int);
    assert(name.subrange(0, name.len() as int) =~= name);
    assert(p.subrange(0, name.len() as int) == name);
    let e = Seq::<char>::empty();
    let h = e + "delta "@;
    assert(h =~= "delta "@);
    let c1 = h + (p + seq![' ']);
    assert(c1.subrange(0, m) =~= "delta "@ + name) by {
        assert forall|i: int| 0 <= i < m implies c1.subrange(0, m)[i] == ("delta "@ + name)[i] by {
            if i >= 6 {
                assert(c1[i] == (p + seq![' '])[i - 6]);
                assert((p + seq![' '])[i - 6] == p[i - 6]);
                assert(p[i - 6] == p.subrange(0, name.len() as int)[i - 6]);
            }
        }
    }
    let f2 = pad_left(Seq::empty(), 6) + seq![' '];
    let f3 = pad_left(signed_text(r.final_total - base.final_total), 8) + seq![' '];
    let f4 = pad_left(signed_text(r.kill - base.kill), 6) + seq![' '];
    let f5 = pad_left(signed_text(r.survival - base.survival), 6) + seq![' '];
    let f6 = pad_left(signed_text(r.residual - base.residual), 7) + seq![' '];
    let f7 = pad_left(signed_text(r.task_gold_earned - base.task_gold_earned), 6) + seq![' '];
    let f8 = pad_left(signed_text(r.tasks_confirmed - base.tasks_confirmed) + seq!['/']
        + signed_text(r.tasks_failed - base.tasks_failed), 9) + seq![' '];
    let f9 = pad_left(signed_text(r.sop_reuses - base.sop_reuses), 4);
    let c2 = c1 + f2; lemma_prefix(c1, f2, m);
    let c3 = c2 + f3; lemma_prefix(c2, f3, m);
    let c4 = c3 + f4; lemma_prefix(c3, f4, m);
    let c5 = c4 + f5; lemma_prefix(c4, f5, m);
    let c6 = c5 + f6; lemma_prefix(c5, f6, m);
    let c7 = c6 + f7; lemma_prefix(c6, f7, m);
    let c8 = c7 + f8; lemma_prefix(c7, f8, m);
    lemma_prefix(c8, f9, m);
    assert(delta_body(r, base) == c8 + f9);
}

proof fn lemma_delta_line(r: ReportView, base: ReportView)
    requires
        no_nl(r.label),
        no_nl(base.label),
    ensures
        one_line(delta_text(r, base)),
        delta_text(r, base).subrange(0, (6 + r.label.len() + 3 + base.label.len()) as int)
            == "delta "@ + r.label + " - "@ + base.label,
{
    lemma_delta_body(r, base);
    lemma_delta_prefix(r, base);
    let b = delta_body(r, base);
    assert(delta_text(r, base) =~= b + seq!['\n']);
    lemma_line(b);
    lemma_prefix(b, seq!['\n'], (6 + r.label.len() + 3 + base.label.len()) as int);
}

proof fn lemma_header_line()
    ensures
        one_line(header_text()),
        header_text().subrange(0, 6) == "battle"@,
{
    reveal_strlit("battle");
    assert(no_nl("battle"@)) by { reveal(no_nl); }
    reveal_strlit("rounds");
    assert(no_nl("rounds"@)) by { reveal(no_nl); }
    reveal_strlit("final");
    assert(no_nl("final"@)) by { reveal(no_nl); }
    reveal_strlit("kill");
    assert(no_nl("kill"@)) by { reveal(no_nl); }
    reveal_strlit("surv");
    assert(no_nl("surv"@)) by { reveal(no_nl); }
    reveal_strlit("s1+err");
    assert(no_nl("s1+err"@)) by { reveal(no_nl); }
    reveal_strlit("gold");
    assert(no_nl("gold"@)) by { reveal(no_nl); }
    reveal_strlit("tasks ok/bad");
    assert(no_nl("tasks ok/bad"@)) by { reveal(no_nl); }
    reveal_strlit("sop");
    assert(no_nl("sop"@)) by { reveal(no_nl); }
    reveal_strlit("lost");
    assert(no_nl("lost"@)) by { reveal(no_nl); }
    reveal_strlit("enemy");
    assert(no_nl("enemy"@)) by { reveal(no_nl); }
    reveal_strlit("reject");
    assert(no_nl("reject"@)) by { reveal(no_nl); }
    reveal_strlit("dry");
    assert(no_nl("dry"@)) by { reveal(no_nl); }
    reveal_strlit("hp");
    assert(no_nl("hp"@)) by { reveal(no_nl); }
    reveal_strlit("ehp");
    assert(no_nl("ehp"@)) by { reveal(no_nl); }
    reveal_strlit("inf");
    assert(no_nl("inf"@)) by { reveal(no_nl); }
    reveal_strlit("rep");
    assert(no_nl("rep"@)) by { reveal(no_nl); }
    lemma_field("battle"@, 20, ' ', false);
    lemma_field("rounds"@, 6, ' ', true);
    lemma_field("final"@, 8, ' ', true);
    lemma_field("kill"@, 6, ' ', true);
    lemma_field("surv"@, 6, ' ', true);
    lemma_field("s1+err"@, 7, ' ', true);
    lemma_field("gold"@, 6, ' ', true);
    lemma_field("tasks ok/bad"@, 9, ' ', true);
    lemma_field("sop"@, 4, ' ', true);
    lemma_field("lost"@, 6, ' ', true);
    lemma_field("enemy"@, 6, ' ', true);
    lemma_field("reject"@, 7, ' ', true);
    lemma_field("dry"@, 5, ' ', true);
    lemma_field("hp"@, 9, ' ', true);
    lemma_field("ehp"@, 9, ' ', true);
    lemma_field("inf"@, 3, '/', true);
    lemma_last_field("rep"@, 3, false);
    let b0 = pad_right("battle"@, 20) + seq![' '];
    let b1 = b0 + (pad_left("rounds"@, 6) + seq![' ']); lemma_cat(b0, pad_left("rounds"@, 6) + seq![' ']);
    let b2 = b1 + (pad_left("final"@, 8) + seq![' ']); lemma_cat(b1, pad_left("final"@, 8) + seq![' ']);
    let b3 = b2 + (pad_left("kill"@, 6) + seq![' ']); lemma_cat(b2, pad_left("kill"@, 6) + seq![' ']);
    let b4 = b3 + (pad_left("surv"@, 6) + seq![' ']); lemma_cat(b3, pad_left("surv"@, 6) + seq![' ']);
    let b5 = b4 + (pad_left("s1+err"@, 7) + seq![' ']); lemma_cat(b4, pad_left("s1+err"@, 7) + seq![' ']);
    let b6 = b5 + (pad_left("gold"@, 6) + seq![' ']); lemma_cat(b5, pad_left("gold"@, 6) + seq![' ']);
    let b7 = b6 + (pad_left("tasks ok/bad"@, 9) + seq![' ']); lemma_cat(b6, pad_left("tasks ok/bad"@, 9) + seq![' ']);
    let b8 = b7 + (pad_left("sop"@, 4) + seq![' ']); lemma_cat(b7, pad_left("sop"@, 4) + seq![' ']);
    let b9 = b8 + (pad_left("lost"@, 6) + seq![' ']); lemma_cat(b8, pad_left("lost"@, 6) + seq![' ']);
    let b10 = b9 + (pad_left("enemy"@, 6) + seq![' ']); lemma_cat(b9, pad_left("enemy"@, 6) + seq![' ']);
    let b11 = b10 + (pad_left("reject"@, 7) + seq![' ']); lemma_cat(b10, pad_left("reject"@, 7) + seq![' ']);
    let b12 = b11 + (pad_left("dry"@, 5) + seq![' ']); lemma_cat(b11, pad_left("dry"@, 5) + seq![' ']);
    let b13 = b12 + (pad_left("hp"@, 9) + seq![' ']); lemma_cat(b12, pad_left("hp"@, 9) + seq![' ']);
    let b14 = b13 + (pad_left("ehp"@, 9) + seq![' ']); lemma_cat(b13, pad_left("ehp"@, 9) + seq![' ']);
    let b15 = b14 + (pad_left("inf"@, 3) + seq!['/']); lemma_cat(b14, pad_left("inf"@, 3) + seq!['/']);
    let b16 = b15 + pad_right("rep"@, 3); lemma_cat(b15, pad_right("rep"@, 3));
    assert(header_text() =~= b16 + seq!['\n']);
    lemma_line(b16);
    assert(header_text().subrange(0, 6) =~= "battle"@);
}

/// The table's lines: a header line starting with `battle`; each battle's
/// row, one line starting with its label; and, for two or more battles,
/// each later battle's delta line starting with `delta <label> - <first>`.
/// With labels free of line breaks every piece is exactly one line, so the
/// table has `1 + n` lines, and `2n + 1` (a blank line between) from two
/// battles on.
pub proof fn law_render_lines(rs: Seq<ReportView>)
    requires
        forall|i: int| 0 <= i < rs.len() ==> no_nl(#[trigger] rs[i].label),
    ensures
        one_line(header_text()),
        header_text().subrange(0, 6) == "battle"@,
        forall|i: int| 0 <= i < rs.len() ==> one_line(#[trigger] row_text(rs[i]))
            && row_text(rs[i]).subrange(0, rs[i].label.len() as int) == rs[i].label,
        rs.len() >= 2 ==> forall|i: int| 1 <= i < rs.len() ==> one_line(#[trigger] delta_text(rs[i], rs[0]))
            && delta_text(rs[i], rs[0]).subrange(0, (6 + rs[i].label.len() + 3 + rs[0].label.len()) as int)
                == "delta "@ + rs[i].label + " - "@ + rs[0].label,
        spec_render(rs) == if rs.len() < 2 { header_text() + rows_text(rs) } else {
            header_text() + rows_text(rs) + seq!['\n'] + deltas_text(rs.subrange(1, rs.len() as int), rs[0])
        },
{
    lemma_header_line();
    assert forall|i: int| 0 <= i < rs.len() implies one_line(#[trigger] row_text(rs[i]))
        && row_text(rs[i]).subrange(0, rs[i].label.len() as int) == rs[i].label by {
        lemma_row_line(rs[i]);
    }
    if rs.len() >= 2 {
        assert forall|i: int| 1 <= i < rs.len() implies one_line(#[trigger] delta_text(rs[i], rs[0]))
            && delta_text(rs[i], rs[0]).subrange(0, (6 + rs[i].label.len() + 3 + rs[0].label.len()) as int)
                == "delta "@ + rs[i].label + " - "@ + rs[0].label by {
            lemma_delta_line(rs[i], rs[0]);
        }
    }
}

pub open spec fn report_views(rs: Seq<BattleReport>) -> Seq<ReportView> {
    rs.map_values(|r: BattleReport| r@)
}

/// The whole table: the header, one row per battle, and with two or more
/// battles a blank line and the delta of every later one against the first.
pub open spec fn spec_render(rs: Seq<ReportView>) -> Seq<char> {
    if rs.len() < 2 {
        header_text() + rows_text(rs)
    } else {
        header_text() + rows_text(rs) + seq!['\n'] + deltas_text(rs.subrange(1, rs.len() as int), rs[0])
    }
}

fn pair_string(a: usize, b: usize) -> (r: String)
    ensures
        r@ == pair_text(a as nat, b as nat),
{
    let mut s = String::new();
    push_digits(&mut s, a as u128);
    push_char(&mut s, '/');
    push_digits(&mut s, b as u128);
    assert(s@ =~= pair_text(a as nat, b as nat));
    s
}

fn hp_string(v: Option<i64>) -> (r: String)
    ensures
        r@ == hp_text(v),
{
    match v {
        Some(h) => dec_string(h as i128),
        None => {
            let mut s = String::new();
            push_char(&mut s, '-');
            assert(s@ =~= seq!['-']);
            s
        },
    }
}

fn day_string(v: Option<i64>) -> (r: String)
    ensures
        r@ == day_text(v),
{
    let mut s = String::new();
    match v {
        Some(d) => {
            push_char(&mut s, 'd');
            let t = dec_string(d as i128);
            push_text(&mut s, t.as_str());
            assert(s@ =~= day_text(v));
        },
        None => {
            push_char(&mut s, '-');
            assert(s@ =~= seq!['-']);
        },
    }
    s
}

/// Appends `t` right-aligned in `w` characters, then `sep`.
fn field_left(s: &mut String, t: &str, w: usize, sep: char)
    ensures
        final(s)@ == old(s)@ + (pad_left(t@, w as nat) + seq![sep]),
{
    push_left(s, t, w);
    push_char(s, sep);
    assert(s@ =~= old(s)@ + (pad_left(t@, w as nat) + seq![sep]));
}

/// Appends `t` left-aligned in `w` characters, then `sep`.
fn field_right(s: &mut String, t: &str, w: usize, sep: char)
    ensures
        final(s)@ == old(s)@ + (pad_right(t@, w as nat) + seq![sep]),
{
    push_right(s, t, w);
    push_char(s, sep);
    assert(s@ =~= old(s)@ + (pad_right(t@, w as nat) + seq![sep]));
}

fn header_string() -> (r: String)
    ensures
        r@ == header_text(),
{
    let mut s = String::new();
    field_right(&mut s, "battle", 20, ' ');
    field_left(&mut s, "rounds", 6, ' ');
    field_left(&mut s, "final", 8, ' ');
    field_left(&mut s, "kill", 6, ' ');
    field_left(&mut s, "surv", 6, ' ');
    field_left(&mut s, "s1+err", 7, ' ');
    field_left(&mut s, "gold", 6, ' ');
    field_left(&mut s, "tasks ok/bad", 9, ' ');
    field_left(&mut s, "sop", 4, ' ');
    field_left(&mut s, "lost", 6, ' ');
    field_left(&mut s, "enemy", 6, ' ');
    field_left(&mut s, "reject", 7, ' ');
    field_left(&mut s, "dry", 5, ' ');
    field_left(&mut s, "hp", 9, ' ');
    field_left(&mut s, "ehp", 9, ' ');
    field_left(&mut s, "inf", 3, '/');
    field_right(&mut s, "rep", 3, '\n');
    s
}

fn row_string(r: &BattleReport) -> (out: String)
    ensures
        out@ == row_text(r@),
{
    let mut s = String::new();
    let mut t = String::new();
    field_right(&mut s, r.label.as_str(), 20, ' ');
    field_left(&mut s, count_string(r.rounds).as_str(), 6, ' ');
    field_left(&mut s, dec_string(r.final_total as i128).as_str(), 8, ' ');
    field_left(&mut s, dec_string(r.kill as i128).as_str(), 6, ' ');
    field_left(&mut s, dec_string(r.survival as i128).as_str(), 6, ' ');
    field_left(&mut s, dec_string(r.score1_proxy() as i128).as_str(), 7, ' ');
    field_left(&mut s, dec_string(r.task_gold_earned as i128).as_str(), 6, ' ');
    field_left(&mut s, pair_string(r.tasks_confirmed, r.tasks_failed).as_str(), 9, ' ');
    assert(s@ =~= row_head(r@));
    field_left(&mut t, pair_string(r.sop_staged_reuses, r.sop_reuses).as_str(), 4, ' ');
    field_left(&mut t, day_string(r.station_lost_day).as_str(), 6, ' ');
    field_left(&mut t, day_string(r.enemy_station_down_day).as_str(), 6, ' ');
    field_left(&mut t, count_string(r.volleys_rejected).as_str(), 7, ' ');
    field_left(&mut t, count_string(r.volleys_no_damage).as_str(), 5, ' ');
    field_left(&mut t, hp_string(r.station_hp_last).as_str(), 9, ' ');
    field_left(&mut t, hp_string(r.enemy_station_hp_last).as_str(), 9, ' ');
    field_left(&mut t, count_string(r.retries_informed).as_str(), 3, '/');
    field_right(&mut t, count_string(r.giveups_repeated).as_str(), 3, '\n');
    assert(t@ =~= row_tail(r@));
    push_text(&mut s, t.as_str());
    s
}

/// The differences the delta row prints fit a machine integer.
pub open spec fn delta_fits(r: ReportView, base: ReportView) -> bool {
    &&& i64::MIN <= r.final_total - base.final_total <= i64::MAX
    &&& i64::MIN <= r.kill - base.kill <= i64::MAX
    &&& i64::MIN <= r.survival - base.survival <= i64::MAX
    &&& i64::MIN <= r.residual - base.residual <= i64::MAX
    &&& i64::MIN <= r.task_gold_earned - base.task_gold_earned <= i64::MAX
    &&& r.tasks_confirmed <= i64::MAX && r.tasks_failed <= i64::MAX && r.sop_reuses <= i64::MAX
    &&& base.tasks_confirmed <= i64::MAX && base.tasks_failed <= i64::MAX && base.sop_reuses <= i64::MAX
}

fn in_i64(v: i128) -> (r: bool)
    ensures
        r == (i64::MIN <= v <= i64::MAX),
{
    -9_223_372_036_854_775_808i128 <= v && v <= 9_223_372_036_854_775_807i128
}

fn delta_fits_exec(r: &BattleReport, base: &BattleReport) -> (ok: bool)
    ensures
        ok == delta_fits(r@, base@),
{
    let max: u128 = 9_223_372_036_854_775_807u128;
    in_i64(r.final_total as i128 - base.final_total as i128)
        && in_i64(r.kill as i128 - base.kill as i128)
        && in_i64(r.survival as i128 - base.survival as i128)
        && in_i64(r.residual as i128 - base.residual as i128)
        && in_i64(r.task_gold_earned as i128 - base.task_gold_earned as i128)
        && r.tasks_confirmed as u128 <= max && r.tasks_failed as u128 <= max
        && r.sop_reuses as u128 <= max
        && base.tasks_confirmed as u128 <= max && base.tasks_failed as u128 <= max
        && base.sop_reuses as u128 <= max
}

/// Can every battle's delta against the first be written out?
pub fn deltas_fit(reports: &[BattleReport]) -> (ok: bool)
    ensures
        ok == (forall|i: int| 1 <= i < reports@.len() ==> delta_fits(#[trigger] reports@[i]@, reports@[0]@)),
{
    let mut i: usize = 1;
    while i < reports.len()
        invariant
            1 <= i,
            forall|k: int| 1 <= k < i && k < reports@.len() ==> delta_fits(#[trigger] reports@[k]@, reports@[0]@),
        decreases reports@.len() - i,
    {
        if !delta_fits_exec(&reports[i], &reports[0]) {
            return false;
        }
        i += 1;
    }
    true
}

fn delta_string(r: &BattleReport, base: &BattleReport) -> (out: String)
    ensures
        out@ == delta_text(r@, base@),
{
    let mut s = String::new();
    push_text(&mut s, "delta ");
    let mut name = String::new();
    push_text(&mut name, r.label.as_str());
    push_text(&mut name, " - ");
    push_text(&mut name, base.label.as_str());
    assert(name@ =~= r.label@ + " - "@ + base.label@);
    field_right(&mut s, name.as_str(), 14, ' ');
    field_left(&mut s, String::new().as_str(), 6, ' ');
    field_left(&mut s, signed_string(r.final_total as i128 - base.final_total as i128).as_str(), 8, ' ');
    field_left(&mut s, signed_string(r.kill as i128 - base.kill as i128).as_str(), 6, ' ');
    field_left(&mut s, signed_string(r.survival as i128 - base.survival as i128).as_str(), 6, ' ');
    field_left(&mut s, signed_string(r.score1_proxy() as i128 - base.score1_proxy() as i128).as_str(), 7, ' ');
    field_left(&mut s, signed_string(r.task_gold_earned as i128 - base.task_gold_earned as i128).as_str(), 6, ' ');
    let mut tasks = signed_string(r.tasks_confirmed as i128 - base.tasks_confirmed as i128);
    push_char(&mut tasks, '/');
    let failed = signed_string(r.tasks_failed as i128 - base.tasks_failed as i128);
    push_text(&mut tasks, failed.as_str());
    field_left(&mut s, tasks.as_str(), 9, ' ');
    field_left(&mut s, signed_string(r.sop_reuses as i128 - base.sop_reuses as i128).as_str(), 4, '\n');
    s
}

/// The fixed-width table: one row per battle, then (with two or more) a
/// blank line and the delta of every later battle against the first, per
/// objective.
pub fn render(reports: &[BattleReport]) -> (out: String)
    requires
        forall|i: int| 1 <= i < reports@.len() ==> delta_fits(#[trigger] reports@[i]@, reports@[0]@),
    ensures
        out@ == spec_render(report_views(reports@)),
{
    let mut out = header_string();
    let ghost views = report_views(reports@);
    let mut i: usize = 0;
    while i < reports.len()
        invariant
            i <= reports@.len(),
            views == report_views(reports@),
            out@ == header_text() + rows_text(views.take(i as int)),
        decreases reports@.len() - i,
    {
        assert(views.take(i as int + 1).drop_last() =~= views.take(i as int));
        assert(views.take(i as int + 1).last() == reports@[i as int]@);
        let row = row_string(&reports[i]);
        push_text(&mut out, row.as_str());
        assert(out@ =~= header_text() + rows_text(views.take(i as int + 1)));
        i += 1;
    }
    assert(views.take(views.len() as int) =~= views);
    if reports.len() < 2 {
        return out;
    }
    push_char(&mut out, '\n');
    let ghost later = views.subrange(1, views.len() as int);
    let ghost head = header_text() + rows_text(views) + seq!['\n'];
    assert(out@ =~= head + deltas_text(later.take(0), views[0]));
    let mut k: usize = 1;
    while k < reports.len()
        invariant
            1 <= k <= reports@.len(),
            reports@.len() >= 2,
            views == report_views(reports@),
            later == views.subrange(1, views.len() as int),
            out@ == head + deltas_text(later.take(k as int - 1), views[0]),
            forall|i: int| 1 <= i < reports@.len() ==> delta_fits(#[trigger] reports@[i]@, reports@[0]@),
        decreases reports@.len() - k,
    {
        assert(later.take(k as int).drop_last() =~= later.take(k as int - 1));
        assert(later.take(k as int).last() == reports@[k as int]@);
        let d = delta_string(&reports[k], &reports[0]);
        push_text(&mut out, d.as_str());
        assert(out@ =~= head + deltas_text(later.take(k as int), views[0]));
        k += 1;
    }
    assert(later.take(later.len() as int) =~= later);
    assert(out@ =~= spec_render(views));
    out
}

} // verus!
