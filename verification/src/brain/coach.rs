//! The built-in coach: online adaptation from evidence the board itself
//! shows. Every night is settled once; a switch moves only when the evidence
//! qualifies, and moves back on contrary evidence.
//!
//! | switch | committed | tighten | loosen |
//! |---|---|---|---|
//! | `station_pressure` | on | our station bleeds, theirs does not → off at once | two quiet nights → on |
//! | `gap_funding` | off | two nights without loss → off | a night our station is hit → on |
//! | `harass` | `Rhythm` | two sterile order nights → one step down (`Off` retries after 4 nights) | two fruitful order nights → one step up |
//!
//! Summon orders act on the opponent's next night: orders placed by day are
//! settled with the coming night, orders placed at night roll over one more
//! night. A night on which our guns also fired at their buildings cannot be
//! used to judge the orders.

use vstd::prelude::*;
use crate::model::{Turn, Unit, UnitKind, DAY_ROUNDS};
use crate::json::{JsonField, json_field, json_field_of, field_i64, as_i64};
use crate::text::{push_text, dec, dec_string};

verus! {

/// Two quiet nights re-arm the fire on their station.
pub const QUIET_TO_REARM: i64 = 2;
/// Two sterile order nights step the harass level down.
pub const STERILE_TO_DOWNGRADE: i64 = 2;
/// Two fruitful order nights step the harass level up.
pub const FRUITFUL_TO_UPGRADE: i64 = 2;
/// Two nights without loss relax the gap-driven funding.
pub const QUIET_TO_RELAX_GAP: i64 = 2;
/// Nights `Off` lasts before one order is tried again.
pub const OFF_PROBATION_NIGHTS: i64 = 4;
/// Evidence carried into the next half is divided by this.
pub const CARRY_DECAY: i64 = 2;

/// Summon-order appetite.
#[derive(Debug, Clone, Copy, PartialEq, Eq, Structural)]
pub enum Harass {
    /// Buy none: the last orders bought no loss on their side.
    Off,
    /// The committed thresholds.
    Rhythm,
    /// Larger stock and a looser thin-wall threshold.
    Rich,
}

pub open spec fn spec_harass_str(h: Harass) -> Seq<char> {
    match h {
        Harass::Off => "Off"@,
        Harass::Rhythm => "Rhythm"@,
        Harass::Rich => "Rich"@,
    }
}

pub open spec fn spec_harass_parse(s: Seq<char>) -> Option<Harass> {
    if s == "Off"@ {
        Some(Harass::Off)
    } else if s == "Rhythm"@ {
        Some(Harass::Rhythm)
    } else if s == "Rich"@ {
        Some(Harass::Rich)
    } else {
        None
    }
}

/// Two character sequences are equal, element by element.
fn same_chars(a: &Vec<char>, b: &Vec<char>) -> (r: bool)
    ensures
        r == (a@ == b@),
{
    if a.len() != b.len() {
        return false;
    }
    let mut i: usize = 0;
    while i < a.len()
        invariant
            i <= a@.len(),
            a@.len() == b@.len(),
            forall|k: int| 0 <= k < i ==> a@[k] == b@[k],
        decreases a@.len() - i,
    {
        if a[i] != b[i] {
            return false;
        }
        i += 1;
    }
    assert(a@ =~= b@);
    true
}

impl Harass {
    pub fn as_str(self) -> (s: &'static str)
        ensures
            s@ == spec_harass_str(self),
    {
        match self {
            Harass::Off => "Off",
            Harass::Rhythm => "Rhythm",
            Harass::Rich => "Rich",
        }
    }

    /// The level a name spells, exactly.
    pub fn parse(text: &str) -> (r: Option<Harass>)
        ensures
            r == spec_harass_parse(text@),
    {
        let t = crate::text::chars_of(text);
        if same_chars(&t, &crate::text::chars_of("Off")) {
            Some(Harass::Off)
        } else if same_chars(&t, &crate::text::chars_of("Rhythm")) {
            Some(Harass::Rhythm)
        } else if same_chars(&t, &crate::text::chars_of("Rich")) {
            Some(Harass::Rich)
        } else {
            None
        }
    }

    pub open spec fn spec_stock_cap(self) -> i64 {
        match self {
            Harass::Off => 0,
            Harass::Rhythm => 2,
            Harass::Rich => 3,
        }
    }

    /// Orders held in stock at most.
    pub fn stock_cap(self) -> (n: i64)
        ensures
            n == self.spec_stock_cap(),
    {
        match self {
            Harass::Off => 0,
            Harass::Rhythm => 2,
            Harass::Rich => 3,
        }
    }

    pub open spec fn spec_thin_wall_limit(self) -> usize {
        match self {
            Harass::Off => 0,
            Harass::Rhythm => 3,
            Harass::Rich => 5,
        }
    }

    /// Enemy walls at most for the cheap order threshold.
    pub fn thin_wall_limit(self) -> (n: usize)
        ensures
            n == self.spec_thin_wall_limit(),
    {
        match self {
            Harass::Off => 0,
            Harass::Rhythm => 3,
            Harass::Rich => 5,
        }
    }
}

impl Default for Harass {
    fn default() -> (h: Self)
        ensures
            h == Harass::Off,
    {
        Harass::Off
    }
}

/// Every level's name parses back to that level.
pub proof fn law_harass_names_round_trip(h: Harass)
    ensures
        spec_harass_parse(spec_harass_str(h)) == Some(h),
{
    reveal_strlit("Off");
    reveal_strlit("Rhythm");
    reveal_strlit("Rich");
    assert("Off"@.len() == 3 && "Rhythm"@.len() == 6 && "Rich"@.len() == 4);
}

/// The three switches the coach moves.
#[derive(Debug, Clone, Copy, PartialEq, Eq, Structural)]
pub struct Policy {
    /// Sustained pressure on the enemy station.
    pub station_pressure: bool,
    /// Funding reordered by the firepower gap.
    pub gap_funding: bool,
    /// Summon-order appetite.
    pub harass: Harass,
}

impl Policy {
    pub open spec fn spec_committed() -> Policy {
        Policy { station_pressure: true, gap_funding: false, harass: Harass::Rhythm }
    }

    /// The committed behaviour, with no evidence at all.
    pub fn committed() -> (p: Policy)
        ensures
            p == Policy::spec_committed(),
    {
        Policy { station_pressure: true, gap_funding: false, harass: Harass::Rhythm }
    }
}

impl Default for Policy {
    fn default() -> (p: Self)
        ensures
            p == Policy::spec_committed(),
    {
        Policy::committed()
    }
}

/// Health snapshot the night's losses are measured against.
#[derive(Debug, Clone, Copy, PartialEq, Eq, Structural)]
pub struct Snapshot {
    pub our_station: i64,
    pub their_station: i64,
    pub our_wall: i64,
    pub their_wall: i64,
}

/// Health of the first station of `s` (0 when dead or absent).
pub open spec fn station_health(s: Seq<Unit>) -> int
    decreases s.len(),
{
    if s.len() == 0 {
        0
    } else if s[0].kind == UnitKind::Station {
        if s[0].health > 0 { s[0].health as int } else { 0 }
    } else {
        station_health(s.drop_first())
    }
}

/// Health of every standing wall of `s`, summed.
pub open spec fn wall_health(s: Seq<Unit>) -> int
    decreases s.len(),
{
    if s.len() == 0 {
        0
    } else {
        wall_health(s.drop_last()) + if s.last().kind == UnitKind::Wall && s.last().health > 0 { s.last().health as int } else { 0 }
    }
}

fn station_hp(units: &Vec<Unit>) -> (h: i64)
    requires
        crate::model::units_wf(units@),
    ensures
        h == station_health(units@),
        0 <= h <= 1_000_000_000,
{
    let mut i: usize = 0;
    assert(units@.skip(0) =~= units@);
    while i < units.len()
        invariant
            i <= units@.len(),
            crate::model::units_wf(units@),
            station_health(units@) == station_health(units@.skip(i as int)),
        decreases units@.len() - i,
    {
        assert(units@.skip(i as int).drop_first() =~= units@.skip(i as int + 1));
        assert(units@.skip(i as int)[0] == units@[i as int]);
        assert(units@[i as int].wf());
        if units[i].kind == UnitKind::Station {
            return if units[i].health > 0 { units[i].health } else { 0 };
        }
        i += 1;
    }
    0
}

fn wall_hp(units: &Vec<Unit>) -> (h: i64)
    requires
        crate::model::units_wf(units@),
        units@.len() <= 10_000,
    ensures
        h == wall_health(units@),
        0 <= h <= 10_000_000_000_000,
{
    let mut total: i64 = 0;
    let mut i: usize = 0;
    while i < units.len()
        invariant
            i <= units@.len(),
            units@.len() <= 10_000,
            crate::model::units_wf(units@),
            total == wall_health(units@.take(i as int)),
            0 <= total <= 1_000_000_000 * i,
        decreases units@.len() - i,
    {
        assert(units@.take(i as int + 1).drop_last() =~= units@.take(i as int));
        assert(units@[i as int].wf());
        if units[i].kind == UnitKind::Wall && units[i].health > 0 {
            total = total + units[i].health;
        }
        i += 1;
    }
    assert(units@.take(units@.len() as int) =~= units@);
    total
}

pub open spec fn spec_snapshot(turn: &Turn) -> Snapshot {
    Snapshot {
        our_station: station_health(turn.ours@) as i64,
        their_station: station_health(turn.enemy@) as i64,
        our_wall: wall_health(turn.ours@) as i64,
        their_wall: wall_health(turn.enemy@) as i64,
    }
}

impl Snapshot {
    pub open spec fn wf(&self) -> bool {
        &&& 0 <= self.our_station <= 10_000_000_000_000
        &&& 0 <= self.their_station <= 10_000_000_000_000
        &&& 0 <= self.our_wall <= 10_000_000_000_000
        &&& 0 <= self.their_wall <= 10_000_000_000_000
    }

    pub fn of(turn: &Turn) -> (s: Snapshot)
        requires
            turn.wf(),
        ensures
            s == spec_snapshot(turn),
            s.wf(),
    {
        Snapshot {
            our_station: station_hp(&turn.ours),
            their_station: station_hp(&turn.enemy),
            our_wall: wall_hp(&turn.ours),
            their_wall: wall_hp(&turn.enemy),
        }
    }
}

/// Every account and counter of the coach is held at this value: far past
/// any real match, and small enough that two of them still add up.
pub const ACCOUNT_CAP: i64 = 1_000_000_000_000_000_000;

/// `a + b`, held at `ACCOUNT_CAP`.
pub open spec fn bump(a: i64, b: int) -> i64 {
    if a + b > ACCOUNT_CAP { ACCOUNT_CAP } else { (a + b) as i64 }
}

pub open spec fn acct_ok(v: i64) -> bool {
    0 <= v <= ACCOUNT_CAP
}

fn add_capped(a: i64, b: i64) -> (r: i64)
    requires
        a <= ACCOUNT_CAP,
        0 <= b <= ACCOUNT_CAP,
    ensures
        r == bump(a, b as int),
        r <= ACCOUNT_CAP,
        acct_ok(a) ==> acct_ok(r),
{
    if a + b > ACCOUNT_CAP { ACCOUNT_CAP } else { a + b }
}

/// A night's account.
#[derive(Debug, Clone, Copy, PartialEq, Eq, Structural)]
pub struct NightLedger {
    pub our_station_lost: i64,
    pub their_station_lost: i64,
    pub our_wall_lost: i64,
    pub their_wall_lost: i64,
    /// Summon orders used this night.
    pub orders_used: i64,
    /// Our towers fired at their buildings this night.
    pub our_fire_on_enemy: bool,
}

pub open spec fn empty_ledger() -> NightLedger {
    NightLedger {
        our_station_lost: 0,
        their_station_lost: 0,
        our_wall_lost: 0,
        their_wall_lost: 0,
        orders_used: 0,
        our_fire_on_enemy: false,
    }
}

impl NightLedger {
    /// Every count is a non-negative amount within the account cap.
    pub open spec fn wf(&self) -> bool {
        &&& acct_ok(self.our_station_lost)
        &&& acct_ok(self.their_station_lost)
        &&& acct_ok(self.our_wall_lost)
        &&& acct_ok(self.their_wall_lost)
        &&& acct_ok(self.orders_used)
    }

    pub open spec fn spec_our_loss(&self) -> int {
        self.our_station_lost + self.our_wall_lost
    }

    pub open spec fn spec_their_loss(&self) -> int {
        self.their_station_lost + self.their_wall_lost
    }

    /// What our station and walls lost.
    pub fn our_loss(&self) -> (n: i64)
        requires
            self.wf(),
        ensures
            n == self.spec_our_loss(),
    {
        self.our_station_lost + self.our_wall_lost
    }

    /// What their station and walls lost.
    pub fn their_loss(&self) -> (n: i64)
        requires
            self.wf(),
        ensures
            n == self.spec_their_loss(),
    {
        self.their_station_lost + self.their_wall_lost
    }

    pub open spec fn spec_idle(&self) -> bool {
        self.spec_our_loss() == 0 && self.spec_their_loss() == 0 && self.orders_used == 0
    }

    fn idle(&self) -> (r: bool)
        requires
            self.wf(),
        ensures
            r == self.spec_idle(),
    {
        self.our_loss() == 0 && self.their_loss() == 0 && self.orders_used == 0
    }
}

impl Default for NightLedger {
    fn default() -> (l: Self)
        ensures
            l == empty_ledger(),
    {
        NightLedger {
            our_station_lost: 0,
            their_station_lost: 0,
            our_wall_lost: 0,
            their_wall_lost: 0,
            orders_used: 0,
            our_fire_on_enemy: false,
        }
    }
}

/// A read-only snapshot of the coach's evidence counters.
#[derive(Debug, Clone, Copy, PartialEq, Eq, Structural)]
pub struct Counters {
    pub bleed_nights: i64,
    pub quiet_nights: i64,
    pub sterile_nights: i64,
    pub fruitful_nights: i64,
    pub gap_breach_nights: i64,
    pub gap_quiet_nights: i64,
    pub orders_from_day: i64,
    pub orders_from_night: i64,
}

impl Counters {
    /// Orders placed and not yet settled.
    pub fn pending_orders(&self) -> (n: i64)
        requires
            acct_ok(self.orders_from_day),
            acct_ok(self.orders_from_night),
        ensures
            n == self.orders_from_day + self.orders_from_night,
    {
        self.orders_from_day + self.orders_from_night
    }
}

/// The adaptive coach.
#[derive(Debug, Clone)]
pub struct Coach {
    pub policy: Policy,
    /// The coach moves switches (a frozen coach only records evidence).
    pub enabled: bool,
    /// The evidence is meant for the learning file: `save_text` gives the
    /// text to write at the end of a half.
    pub persist: bool,
    /// The night being accumulated.
    pub ledger: NightLedger,
    /// The last settled night.
    pub last_night: NightLedger,
    pub prev: Option<Snapshot>,
    pub last_round: i64,
    pub last_in_day: Option<i64>,
    /// Tonight's firepower gap estimate.
    pub night_gap: i64,
    /// Orders placed by day: settled with the coming night.
    pub orders_from_day: i64,
    /// Orders placed at night: settled one night later.
    pub orders_from_night: i64,
    /// The day's order count as last read.
    pub orders_seen_today: i64,
    pub bleed_nights: i64,
    pub quiet_nights: i64,
    pub sterile_nights: i64,
    pub fruitful_nights: i64,
    pub gap_breach_nights: i64,
    pub gap_quiet_nights: i64,
    /// Nights `harass` has been `Off` (probation clock).
    pub off_nights: i64,
    /// Halves this process has finished.
    pub halves: i64,
}

impl Coach {
    /// Counters and accounts within the range the coach's arithmetic needs.
    pub open spec fn wf(&self) -> bool {
        &&& self.ledger.wf()
        &&& self.last_night.wf()
        &&& -1_000_000_000 <= self.last_round <= 1_000_000_000
        &&& (self.prev matches Some(p) ==> p.wf())
        &&& acct_ok(self.orders_from_day)
        &&& acct_ok(self.orders_from_night)
        &&& 0 <= self.orders_seen_today <= i32::MAX
        &&& acct_ok(self.bleed_nights)
        &&& acct_ok(self.quiet_nights)
        &&& acct_ok(self.sterile_nights)
        &&& acct_ok(self.fruitful_nights)
        &&& acct_ok(self.gap_breach_nights)
        &&& acct_ok(self.gap_quiet_nights)
        &&& acct_ok(self.off_nights)
        &&& self.halves <= ACCOUNT_CAP
    }

    pub open spec fn fresh(enabled: bool) -> Coach {
        Coach {
            policy: Policy::spec_committed(),
            enabled,
            persist: false,
            ledger: empty_ledger(),
            last_night: empty_ledger(),
            prev: None,
            last_round: 0,
            last_in_day: None,
            night_gap: 0,
            orders_from_day: 0,
            orders_from_night: 0,
            orders_seen_today: 0,
            bleed_nights: 0,
            quiet_nights: 0,
            sterile_nights: 0,
            fruitful_nights: 0,
            gap_breach_nights: 0,
            gap_quiet_nights: 0,
            off_nights: 0,
            halves: 0,
        }
    }

    /// A coach that never moves a switch: the policy stays committed.
    pub fn frozen() -> (c: Coach)
        ensures
            c == Coach::fresh(false),
    {
        let mut c = Coach::default();
        c.enabled = false;
        c
    }

    pub fn policy(&self) -> (p: Policy)
        ensures
            p == self.policy,
    {
        self.policy
    }

    /// The evidence counters.
    pub fn counters(&self) -> (c: Counters)
        ensures
            c == (Counters {
                bleed_nights: self.bleed_nights,
                quiet_nights: self.quiet_nights,
                sterile_nights: self.sterile_nights,
                fruitful_nights: self.fruitful_nights,
                gap_breach_nights: self.gap_breach_nights,
                gap_quiet_nights: self.gap_quiet_nights,
                orders_from_day: self.orders_from_day,
                orders_from_night: self.orders_from_night,
            }),
    {
        Counters {
            bleed_nights: self.bleed_nights,
            quiet_nights: self.quiet_nights,
            sterile_nights: self.sterile_nights,
            fruitful_nights: self.fruitful_nights,
            gap_breach_nights: self.gap_breach_nights,
            gap_quiet_nights: self.gap_quiet_nights,
            orders_from_day: self.orders_from_day,
            orders_from_night: self.orders_from_night,
        }
    }

    /// Our towers fired at their buildings this night: the night cannot
    /// judge the summon orders.
    pub fn note_enemy_fire(&mut self)
        ensures
            *final(self) == (Coach { ledger: NightLedger { our_fire_on_enemy: true, ..old(self).ledger }, ..*old(self) }),
    {
        self.ledger.our_fire_on_enemy = true;
    }
}

impl Default for Coach {
    fn default() -> (c: Self)
        ensures
            c == Coach::fresh(true),
    {
        Coach {
            policy: Policy::committed(),
            enabled: true,
            persist: false,
            ledger: NightLedger::default(),
            last_night: NightLedger::default(),
            prev: None,
            last_round: 0,
            last_in_day: None,
            night_gap: 0,
            orders_from_day: 0,
            orders_from_night: 0,
            orders_seen_today: 0,
            bleed_nights: 0,
            quiet_nights: 0,
            sterile_nights: 0,
            fruitful_nights: 0,
            gap_breach_nights: 0,
            gap_quiet_nights: 0,
            off_nights: 0,
            halves: 0,
        }
    }
}


// ---------------------------------------------------------------------------
// The nightly settlement
// ---------------------------------------------------------------------------

pub open spec fn harass_down(h: Harass) -> Harass {
    match h {
        Harass::Rich => Harass::Rhythm,
        Harass::Rhythm => Harass::Off,
        Harass::Off => Harass::Off,
    }
}

pub open spec fn harass_up(h: Harass) -> Harass {
    match h {
        Harass::Off => Harass::Rhythm,
        Harass::Rhythm => Harass::Rich,
        Harass::Rich => Harass::Rich,
    }
}

/// Two sterile order nights step the level down, else two fruitful ones step
/// it up; the evidence that moved it is spent.
pub open spec fn spec_apply_harass(c: Coach) -> Coach {
    if c.sterile_nights >= STERILE_TO_DOWNGRADE {
        let next = harass_down(c.policy.harass);
        if next != c.policy.harass {
            Coach { policy: Policy { harass: next, ..c.policy }, sterile_nights: 0, ..c }
        } else {
            c
        }
    } else if c.fruitful_nights >= FRUITFUL_TO_UPGRADE {
        let next = harass_up(c.policy.harass);
        if next != c.policy.harass {
            Coach { policy: Policy { harass: next, ..c.policy }, fruitful_nights: 0, ..c }
        } else {
            c
        }
    } else {
        c
    }
}

/// A breached night turns gap funding on; two nights without loss turn it off.
pub open spec fn spec_apply_gap(c: Coach) -> Coach {
    if !c.policy.gap_funding && c.gap_breach_nights > 0 {
        Coach { policy: Policy { gap_funding: true, ..c.policy }, ..c }
    } else if c.policy.gap_funding && c.gap_quiet_nights >= QUIET_TO_RELAX_GAP {
        Coach { policy: Policy { gap_funding: false, ..c.policy }, ..c }
    } else {
        c
    }
}

/// Step A: who is bleeding; two quiet nights re-arm the station pressure.
pub open spec fn settle_exchange(c: Coach, night: NightLedger) -> Coach {
    let c1 = if night.our_station_lost > 0 && night.their_station_lost == 0 {
        Coach { bleed_nights: bump(c.bleed_nights, 1), quiet_nights: 0, ..c }
    } else if night.our_station_lost == 0 {
        Coach {
            quiet_nights: bump(c.quiet_nights, 1),
            bleed_nights: if c.bleed_nights - 1 > 0 { (c.bleed_nights - 1) as i64 } else { 0 },
            ..c
        }
    } else {
        c
    };
    if c1.enabled && !c1.policy.station_pressure && c1.quiet_nights >= QUIET_TO_REARM {
        Coach { policy: Policy { station_pressure: true, ..c1.policy }, ..c1 }
    } else {
        c1
    }
}

/// Step B: the day's orders are judged by this night; the night's orders
/// roll over one more night.
pub open spec fn settle_orders(c: Coach, night: NightLedger) -> Coach {
    let paid = c.orders_from_day;
    let c1 = Coach { orders_from_day: c.orders_from_night, orders_from_night: 0, ..c };
    if paid > 0 && !night.our_fire_on_enemy {
        let c2 = if night.spec_their_loss() > 0 {
            Coach { fruitful_nights: bump(c1.fruitful_nights, 1), sterile_nights: 0, ..c1 }
        } else {
            Coach { sterile_nights: bump(c1.sterile_nights, 1), fruitful_nights: 0, ..c1 }
        };
        if c2.enabled { spec_apply_harass(c2) } else { c2 }
    } else {
        c1
    }
}

/// Step B2: `Off` is probation, retried after four nights.
pub open spec fn settle_probation(c: Coach) -> Coach {
    if !c.enabled {
        c
    } else if c.policy.harass == Harass::Off {
        let off = bump(c.off_nights, 1);
        if off >= OFF_PROBATION_NIGHTS {
            Coach { off_nights: 0, policy: Policy { harass: Harass::Rhythm, ..c.policy }, ..c }
        } else {
            Coach { off_nights: off, ..c }
        }
    } else {
        Coach { off_nights: 0, ..c }
    }
}

/// Step C: a hit on our station confirms the gap; a night without loss
/// counts toward relaxing it.
pub open spec fn settle_gap(c: Coach, night: NightLedger) -> Coach {
    let c1 = if night.our_station_lost > 0 {
        Coach { gap_breach_nights: bump(c.gap_breach_nights, 1), gap_quiet_nights: 0, ..c }
    } else if night.spec_our_loss() == 0 {
        Coach { gap_quiet_nights: bump(c.gap_quiet_nights, 1), ..c }
    } else {
        c
    };
    if c1.enabled { spec_apply_gap(c1) } else { c1 }
}

/// The whole settlement of the night in `c.ledger`.
pub open spec fn spec_settle(c: Coach) -> Coach {
    let night = c.ledger;
    let c0 = Coach { ledger: empty_ledger(), ..c };
    let c4 = settle_gap(settle_probation(settle_orders(settle_exchange(c0, night), night)), night);
    Coach { last_night: night, ..c4 }
}

impl Coach {
    fn apply_harass(&mut self)
        requires
            old(self).wf(),
        ensures
            *final(self) == spec_apply_harass(*old(self)),
            final(self).wf(),
    {
        if self.sterile_nights >= STERILE_TO_DOWNGRADE {
            let next = match self.policy.harass {
                Harass::Rich => Harass::Rhythm,
                Harass::Rhythm => Harass::Off,
                Harass::Off => Harass::Off,
            };
            if next != self.policy.harass {
                self.policy.harass = next;
                self.sterile_nights = 0;
            }
        } else if self.fruitful_nights >= FRUITFUL_TO_UPGRADE {
            let next = match self.policy.harass {
                Harass::Off => Harass::Rhythm,
                Harass::Rhythm => Harass::Rich,
                Harass::Rich => Harass::Rich,
            };
            if next != self.policy.harass {
                self.policy.harass = next;
                self.fruitful_nights = 0;
            }
        }
    }

    fn apply_gap(&mut self)
        requires
            old(self).wf(),
        ensures
            *final(self) == spec_apply_gap(*old(self)),
            final(self).wf(),
    {
        if !self.policy.gap_funding && self.gap_breach_nights > 0 {
            self.policy.gap_funding = true;
        } else if self.policy.gap_funding && self.gap_quiet_nights >= QUIET_TO_RELAX_GAP {
            self.policy.gap_funding = false;
        }
    }

    fn exchange_step(&mut self, night: NightLedger)
        requires
            old(self).wf(),
        ensures
            *final(self) == settle_exchange(*old(self), night),
            final(self).wf(),
    {
        if night.our_station_lost > 0 && night.their_station_lost == 0 {
            self.bleed_nights = add_capped(self.bleed_nights, 1);
            self.quiet_nights = 0;
        } else if night.our_station_lost == 0 {
            self.quiet_nights = add_capped(self.quiet_nights, 1);
            self.bleed_nights = if self.bleed_nights - 1 > 0 { self.bleed_nights - 1 } else { 0 };
        }
        if self.enabled && !self.policy.station_pressure && self.quiet_nights >= QUIET_TO_REARM {
            self.policy.station_pressure = true;
        }
    }

    fn orders_step(&mut self, night: NightLedger)
        requires
            old(self).wf(),
            night.wf(),
        ensures
            *final(self) == settle_orders(*old(self), night),
            final(self).wf(),
    {
        let carry = self.orders_from_night;
        let paid = self.orders_from_day;
        self.orders_from_day = carry;
        self.orders_from_night = 0;
        if paid > 0 && !night.our_fire_on_enemy {
            if night.their_loss() > 0 {
                self.fruitful_nights = add_capped(self.fruitful_nights, 1);
                self.sterile_nights = 0;
            } else {
                self.sterile_nights = add_capped(self.sterile_nights, 1);
                self.fruitful_nights = 0;
            }
            if self.enabled {
                self.apply_harass();
            }
        }
    }

    fn probation_step(&mut self)
        requires
            old(self).wf(),
        ensures
            *final(self) == settle_probation(*old(self)),
            final(self).wf(),
    {
        if self.enabled {
            if self.policy.harass == Harass::Off {
                self.off_nights = add_capped(self.off_nights, 1);
                if self.off_nights >= OFF_PROBATION_NIGHTS {
                    self.off_nights = 0;
                    self.policy.harass = Harass::Rhythm;
                }
            } else {
                self.off_nights = 0;
            }
        }
    }

    fn gap_step(&mut self, night: NightLedger)
        requires
            old(self).wf(),
            night.wf(),
        ensures
            *final(self) == settle_gap(*old(self), night),
            final(self).wf(),
    {
        if night.our_station_lost > 0 {
            self.gap_breach_nights = add_capped(self.gap_breach_nights, 1);
            self.gap_quiet_nights = 0;
        } else if night.our_loss() == 0 {
            self.gap_quiet_nights = add_capped(self.gap_quiet_nights, 1);
        }
        if self.enabled {
            self.apply_gap();
        }
    }

    /// Settle the night just ended: attribute it and move the switches.
    fn settle(&mut self)
        requires
            old(self).wf(),
        ensures
            *final(self) == spec_settle(*old(self)),
            final(self).wf(),
    {
        let night = self.ledger;
        self.ledger = NightLedger::default();
        self.exchange_step(night);
        self.orders_step(night);
        self.probation_step();
        self.gap_step(night);
        self.last_night = night;
    }
}


// ---------------------------------------------------------------------------
// Round by round
// ---------------------------------------------------------------------------

/// Take the growth of the day's order count into the night's account, in the
/// bucket its placing time decides.
pub open spec fn spec_absorb(c: Coach, orders_today: i32, is_day: bool) -> Coach {
    let orders: i64 = if orders_today > 0 { orders_today as i64 } else { 0 };
    if orders > c.orders_seen_today {
        let delta = orders - c.orders_seen_today;
        let c1 = Coach { ledger: NightLedger { orders_used: bump(c.ledger.orders_used, delta), ..c.ledger }, ..c };
        let c2 = if is_day {
            Coach { orders_from_day: bump(c1.orders_from_day, delta), ..c1 }
        } else {
            Coach { orders_from_night: bump(c1.orders_from_night, delta), ..c1 }
        };
        Coach { orders_seen_today: orders, ..c2 }
    } else {
        Coach { orders_seen_today: orders, ..c }
    }
}

pub open spec fn lost(before: i64, now: i64) -> int {
    if before - now > 0 { before - now } else { 0 }
}

/// Add the health lost since the previous snapshot to the night's account.
pub open spec fn spec_account(l: NightLedger, p: Snapshot, now: Snapshot) -> NightLedger {
    NightLedger {
        our_station_lost: bump(l.our_station_lost, lost(p.our_station, now.our_station)),
        their_station_lost: bump(l.their_station_lost, lost(p.their_station, now.their_station)),
        our_wall_lost: bump(l.our_wall_lost, lost(p.our_wall, now.our_wall)),
        their_wall_lost: bump(l.their_wall_lost, lost(p.their_wall, now.their_wall)),
        ..l
    }
}

pub open spec fn continuous(c: Coach, turn: &Turn) -> bool {
    c.last_round > 0 && turn.round_no == c.last_round + 1
}

/// One round's observation, before the night is settled.
pub open spec fn spec_observe_round(c: Coach, turn: &Turn, orders_today: i32) -> Coach {
    let now = spec_snapshot(turn);
    let ledger = if continuous(c, turn) && c.prev is Some { spec_account(c.ledger, c.prev->0, now) } else { c.ledger };
    let c1 = Coach {
        last_round: turn.round_no,
        last_in_day: Some(turn.in_day_round),
        ledger,
        prev: Some(now),
        ..c
    };
    let c2 = spec_absorb(c1, orders_today, turn.is_day);
    let c3 = if turn.in_day_round == DAY_ROUNDS {
        Coach { night_gap: (crate::brain::combat::spec_wave_hp(turn.day as int)
            - crate::brain::combat::fire_sum(turn.ours@, -1i64, 0)) as i64, ..c2 }
    } else {
        c2
    };
    if c3.enabled && !turn.is_day && c3.policy.station_pressure && c3.ledger.our_station_lost > 0
        && c3.ledger.their_station_lost == 0 {
        Coach { policy: Policy { station_pressure: false, ..c3.policy }, ..c3 }
    } else {
        c3
    }
}

/// The night just ended: the round is a day round right after a night round.
pub open spec fn night_ended(c: Coach, turn: &Turn) -> bool {
    continuous(c, turn) && turn.is_day && (c.last_in_day matches Some(r) && r >= DAY_ROUNDS)
}

pub open spec fn spec_observe(c: Coach, turn: &Turn, orders_today: i32) -> Coach {
    let c4 = spec_observe_round(c, turn, orders_today);
    if night_ended(c, turn) { spec_settle(c4) } else { c4 }
}

/// End of a half: the open account is settled once more, the evidence is
/// halved and carried over, and every per-half clock starts again.
pub open spec fn spec_end_half(c: Coach) -> Coach {
    let c1 = if !c.ledger.spec_idle() {
        let night = c.ledger;
        let b = if night.our_station_lost > 0 && night.their_station_lost == 0 { bump(c.bleed_nights, 1) } else { c.bleed_nights };
        let c0 = Coach { last_night: night, bleed_nights: b, ..c };
        if c.orders_from_day > 0 && !night.our_fire_on_enemy {
            if night.spec_their_loss() > 0 {
                Coach { fruitful_nights: bump(c0.fruitful_nights, 1), sterile_nights: 0, ..c0 }
            } else {
                Coach { sterile_nights: bump(c0.sterile_nights, 1), fruitful_nights: 0, ..c0 }
            }
        } else {
            c0
        }
    } else {
        c
    };
    Coach {
        halves: bump(c1.halves, 1),
        bleed_nights: (c1.bleed_nights / CARRY_DECAY) as i64,
        quiet_nights: (c1.quiet_nights / CARRY_DECAY) as i64,
        sterile_nights: (c1.sterile_nights / CARRY_DECAY) as i64,
        fruitful_nights: (c1.fruitful_nights / CARRY_DECAY) as i64,
        gap_breach_nights: (c1.gap_breach_nights / CARRY_DECAY) as i64,
        gap_quiet_nights: (c1.gap_quiet_nights / CARRY_DECAY) as i64,
        prev: None,
        last_round: 0,
        last_in_day: None,
        orders_from_day: 0,
        orders_from_night: 0,
        off_nights: 0,
        orders_seen_today: 0,
        night_gap: 0,
        ledger: empty_ledger(),
        ..c1
    }
}

impl Coach {
    fn absorb_orders(&mut self, orders_today: i32, is_day: bool)
        requires
            old(self).wf(),
        ensures
            *final(self) == spec_absorb(*old(self), orders_today, is_day),
            final(self).wf(),
    {
        let orders: i64 = if orders_today > 0 { orders_today as i64 } else { 0 };
        if orders > self.orders_seen_today {
            let delta = orders - self.orders_seen_today;
            self.ledger.orders_used = add_capped(self.ledger.orders_used, delta);
            if is_day {
                self.orders_from_day = add_capped(self.orders_from_day, delta);
            } else {
                self.orders_from_night = add_capped(self.orders_from_night, delta);
            }
        }
        self.orders_seen_today = orders;
    }

    fn account(&mut self, p: Snapshot, now: Snapshot)
        requires
            old(self).wf(),
            p.wf(),
            now.wf(),
        ensures
            *final(self) == (Coach { ledger: spec_account(old(self).ledger, p, now), ..*old(self) }),
            final(self).wf(),
    {
        let a = if p.our_station - now.our_station > 0 { p.our_station - now.our_station } else { 0 };
        let b = if p.their_station - now.their_station > 0 { p.their_station - now.their_station } else { 0 };
        let c = if p.our_wall - now.our_wall > 0 { p.our_wall - now.our_wall } else { 0 };
        let d = if p.their_wall - now.their_wall > 0 { p.their_wall - now.their_wall } else { 0 };
        self.ledger.our_station_lost = add_capped(self.ledger.our_station_lost, a);
        self.ledger.their_station_lost = add_capped(self.ledger.their_station_lost, b);
        self.ledger.our_wall_lost = add_capped(self.ledger.our_wall_lost, c);
        self.ledger.their_wall_lost = add_capped(self.ledger.their_wall_lost, d);
    }

    fn observe_round(&mut self, turn: &Turn, orders_today: i32)
        requires
            old(self).wf(),
            turn.wf(),
        ensures
            *final(self) == spec_observe_round(*old(self), turn, orders_today),
            final(self).wf(),
    {
        let cont = self.last_round > 0 && turn.round_no == self.last_round + 1;
        self.last_round = turn.round_no;
        self.last_in_day = Some(turn.in_day_round);
        let now = Snapshot::of(turn);
        if cont {
            match self.prev {
                Some(p) => self.account(p, now),
                None => {},
            }
        }
        self.prev = Some(now);
        self.absorb_orders(orders_today, turn.is_day);
        if turn.in_day_round == DAY_ROUNDS {
            self.night_gap = crate::brain::combat::firepower_gap(turn);
        }
        if self.enabled && !turn.is_day && self.policy.station_pressure && self.ledger.our_station_lost > 0
            && self.ledger.their_station_lost == 0 {
            self.policy.station_pressure = false;
        }
    }

    /// Read one round: add the night's losses since the last round, take in
    /// the day's new summon orders, fold the fire on their station back the
    /// moment only our station bleeds at night, and settle the night at the
    /// first day round after it. A frozen coach records but never moves a
    /// switch.
    pub fn observe(&mut self, turn: &Turn, orders_today: i32)
        requires
            old(self).wf(),
            turn.wf(),
        ensures
            *final(self) == spec_observe(*old(self), turn, orders_today),
            final(self).wf(),
            !old(self).enabled ==> final(self).policy == old(self).policy,
    {
        let ended = self.last_round > 0 && turn.round_no == self.last_round + 1 && turn.is_day
            && match self.last_in_day {
                Some(r) => r >= DAY_ROUNDS,
                None => false,
            };
        self.observe_round(turn, orders_today);
        if ended {
            self.settle();
        }
    }

    /// A half is over (the round counter went back). The open account is
    /// settled once, the evidence is halved and carried, and the per-half
    /// clocks start again.
    pub fn end_half(&mut self, day: i64, round: i64)
        requires
            old(self).wf(),
        ensures
            *final(self) == spec_end_half(*old(self)),
            final(self).wf(),
            final(self).policy == old(self).policy,
    {
        if !self.ledger.idle() {
            let night = self.ledger;
            self.last_night = night;
            if night.our_station_lost > 0 && night.their_station_lost == 0 {
                self.bleed_nights = add_capped(self.bleed_nights, 1);
            }
            if self.orders_from_day > 0 && !night.our_fire_on_enemy {
                if night.their_loss() > 0 {
                    self.fruitful_nights = add_capped(self.fruitful_nights, 1);
                    self.sterile_nights = 0;
                } else {
                    self.sterile_nights = add_capped(self.sterile_nights, 1);
                    self.fruitful_nights = 0;
                }
            }
        }
        self.halves = add_capped(self.halves, 1);
        self.bleed_nights = self.bleed_nights / CARRY_DECAY;
        self.quiet_nights = self.quiet_nights / CARRY_DECAY;
        self.sterile_nights = self.sterile_nights / CARRY_DECAY;
        self.fruitful_nights = self.fruitful_nights / CARRY_DECAY;
        self.gap_breach_nights = self.gap_breach_nights / CARRY_DECAY;
        self.gap_quiet_nights = self.gap_quiet_nights / CARRY_DECAY;
        self.prev = None;
        self.last_round = 0;
        self.last_in_day = None;
        self.orders_from_day = 0;
        self.orders_from_night = 0;
        self.off_nights = 0;
        self.orders_seen_today = 0;
        self.night_gap = 0;
        self.ledger = NightLedger::default();
    }
}

/// Orders placed at night are never judged by the night they were placed in:
/// the settlement moves them into the next night's bucket untouched.
pub proof fn law_night_orders_roll_over(c: Coach)
    ensures
        spec_settle(c).orders_from_day == c.orders_from_night,
        spec_settle(c).orders_from_night == 0,
{
}

/// A frozen coach never moves a switch, whatever a night brings.
pub proof fn law_frozen_coach_keeps_its_policy(c: Coach)
    requires
        !c.enabled,
    ensures
        spec_settle(c).policy == c.policy,
{
}

/// Within one half the switches only move one notch per settlement: the
/// harass level changes by at most one step.
pub proof fn law_harass_moves_one_step(c: Coach)
    ensures
        spec_settle(c).policy.harass == c.policy.harass
            || spec_settle(c).policy.harass == harass_up(c.policy.harass)
            || spec_settle(c).policy.harass == harass_down(c.policy.harass),
{
}


// ---------------------------------------------------------------------------
// The learning file: evidence carried from one process to the next
// ---------------------------------------------------------------------------

/// An evidence counter read from the learning file: a non-negative integer,
/// held at `ACCOUNT_CAP`; 0 when absent or no integer.
pub open spec fn read_count(f: JsonField) -> i64 {
    match field_i64(f) {
        Some(v) => if v < 0 { 0 } else if v > ACCOUNT_CAP { ACCOUNT_CAP } else { v },
        None => 0,
    }
}

/// The count of halves read from the learning file: kept as read (a
/// negative count too), held at `ACCOUNT_CAP`; 0 when absent or no integer.
pub open spec fn read_halves(f: JsonField) -> i64 {
    match field_i64(f) {
        Some(v) => if v > ACCOUNT_CAP { ACCOUNT_CAP } else { v },
        None => 0,
    }
}

/// A switch read from the learning file, where it is a boolean.
pub open spec fn read_flag(f: JsonField, otherwise: bool) -> bool {
    match f {
        JsonField::Bool(b) => b,
        _ => otherwise,
    }
}

/// The harassment level read from the learning file, where it names one.
pub open spec fn read_harass(f: JsonField, otherwise: Harass) -> Harass {
    match f {
        JsonField::Text(t) => match spec_harass_parse(t@) {
            Some(h) => h,
            None => otherwise,
        },
        _ => otherwise,
    }
}

/// The coach a learning file's fields give: a fresh, enabled coach with the
/// evidence counters and the halves read, and each switch read where present.
pub open spec fn spec_coach_from_fields(persist: bool, halves: JsonField, bleed: JsonField, quiet: JsonField,
    sterile: JsonField, fruitful: JsonField, gap_breach: JsonField, gap_quiet: JsonField,
    station_pressure: JsonField, gap_funding: JsonField, harass: JsonField) -> Coach {
    let c = Policy::spec_committed();
    Coach {
        persist,
        halves: read_halves(halves),
        bleed_nights: read_count(bleed),
        quiet_nights: read_count(quiet),
        sterile_nights: read_count(sterile),
        fruitful_nights: read_count(fruitful),
        gap_breach_nights: read_count(gap_breach),
        gap_quiet_nights: read_count(gap_quiet),
        policy: Policy {
            station_pressure: read_flag(station_pressure, c.station_pressure),
            gap_funding: read_flag(gap_funding, c.gap_funding),
            harass: read_harass(harass, c.harass),
        },
        ..Coach::fresh(true)
    }
}

fn count_of(f: &JsonField) -> (r: i64)
    ensures
        r == read_count(*f),
{
    match as_i64(f) {
        Some(v) => if v < 0 { 0 } else if v > ACCOUNT_CAP { ACCOUNT_CAP } else { v },
        None => 0,
    }
}

fn flag_of(f: &JsonField, otherwise: bool) -> (r: bool)
    ensures
        r == read_flag(*f, otherwise),
{
    match f {
        JsonField::Bool(b) => *b,
        _ => otherwise,
    }
}

fn harass_of(f: &JsonField, otherwise: Harass) -> (r: Harass)
    ensures
        r == read_harass(*f, otherwise),
{
    match f {
        JsonField::Text(t) => match Harass::parse(t.as_str()) {
            Some(h) => h,
            None => otherwise,
        },
        _ => otherwise,
    }
}

/// The coach a learning file's text gives. Text that is not JSON reads as
/// a file with no fields: a fresh coach.
pub fn coach_from_learning_text(text: &str, persist: bool) -> (c: Coach)
    ensures
        c == spec_coach_from_fields(persist, json_field_of(text@, "/halves"@),
            json_field_of(text@, "/evidence/bleedNights"@), json_field_of(text@, "/evidence/quietNights"@),
            json_field_of(text@, "/evidence/sterile"@), json_field_of(text@, "/evidence/fruitful"@),
            json_field_of(text@, "/evidence/gapBreach"@), json_field_of(text@, "/evidence/gapQuiet"@),
            json_field_of(text@, "/policy/station_pressure"@), json_field_of(text@, "/policy/gap_funding"@),
            json_field_of(text@, "/policy/harass"@)),
        c.wf(),
{
    let mut c = Coach::default();
    c.persist = persist;
    c.halves = match as_i64(&json_field(text, "/halves")) {
        Some(v) => if v > ACCOUNT_CAP { ACCOUNT_CAP } else { v },
        None => 0,
    };
    c.bleed_nights = count_of(&json_field(text, "/evidence/bleedNights"));
    c.quiet_nights = count_of(&json_field(text, "/evidence/quietNights"));
    c.sterile_nights = count_of(&json_field(text, "/evidence/sterile"));
    c.fruitful_nights = count_of(&json_field(text, "/evidence/fruitful"));
    c.gap_breach_nights = count_of(&json_field(text, "/evidence/gapBreach"));
    c.gap_quiet_nights = count_of(&json_field(text, "/evidence/gapQuiet"));
    let committed = Policy::committed();
    c.policy = Policy {
        station_pressure: flag_of(&json_field(text, "/policy/station_pressure"), committed.station_pressure),
        gap_funding: flag_of(&json_field(text, "/policy/gap_funding"), committed.gap_funding),
        harass: harass_of(&json_field(text, "/policy/harass"), committed.harass),
    };
    c
}

pub open spec fn bool_text(b: bool) -> Seq<char> {
    if b { "true"@ } else { "false"@ }
}

/// The learning file's text for a coach: one compact JSON object, keys in
/// order, holding the version, the halves, the switches and the evidence.
pub open spec fn spec_learning_text(c: Coach) -> Seq<char> {
    "{\"evidence\":{\"bleedNights\":"@ + dec(c.bleed_nights as int)
        + ",\"fruitful\":"@ + dec(c.fruitful_nights as int)
        + ",\"gapBreach\":"@ + dec(c.gap_breach_nights as int)
        + ",\"gapQuiet\":"@ + dec(c.gap_quiet_nights as int)
        + ",\"quietNights\":"@ + dec(c.quiet_nights as int)
        + ",\"sterile\":"@ + dec(c.sterile_nights as int)
        + "},\"halves\":"@ + dec(c.halves as int)
        + ",\"policy\":{\"gap_funding\":"@ + bool_text(c.policy.gap_funding)
        + ",\"harass\":\""@ + spec_harass_str(c.policy.harass)
        + "\",\"station_pressure\":"@ + bool_text(c.policy.station_pressure)
        + "},\"version\":1}"@
}

fn push_bool(s: &mut String, b: bool)
    ensures
        final(s)@ == old(s)@ + bool_text(b),
{
    if b { push_text(s, "true") } else { push_text(s, "false") }
}

fn push_dec(s: &mut String, v: i64)
    ensures
        final(s)@ == old(s)@ + dec(v as int),
{
    let d = dec_string(v as i128);
    push_text(s, d.as_str());
}

/// The text the learning file holds for `c`.
pub fn learning_text(c: &Coach) -> (s: String)
    ensures
        s@ == spec_learning_text(*c),
{
    let mut s = String::new();
    push_text(&mut s, "{\"evidence\":{\"bleedNights\":");
    push_dec(&mut s, c.bleed_nights);
    push_text(&mut s, ",\"fruitful\":");
    push_dec(&mut s, c.fruitful_nights);
    push_text(&mut s, ",\"gapBreach\":");
    push_dec(&mut s, c.gap_breach_nights);
    push_text(&mut s, ",\"gapQuiet\":");
    push_dec(&mut s, c.gap_quiet_nights);
    push_text(&mut s, ",\"quietNights\":");
    push_dec(&mut s, c.quiet_nights);
    push_text(&mut s, ",\"sterile\":");
    push_dec(&mut s, c.sterile_nights);
    push_text(&mut s, "},\"halves\":");
    push_dec(&mut s, c.halves);
    push_text(&mut s, ",\"policy\":{\"gap_funding\":");
    push_bool(&mut s, c.policy.gap_funding);
    push_text(&mut s, ",\"harass\":\"");
    push_text(&mut s, c.policy.harass.as_str());
    push_text(&mut s, "\",\"station_pressure\":");
    push_bool(&mut s, c.policy.station_pressure);
    push_text(&mut s, "},\"version\":1}");
    assert(s@ =~= spec_learning_text(*c));
    s
}

/// The learning file's text to write for `c`: only a coach that persists
/// and learns writes one.
pub fn save_text(c: &Coach) -> (r: Option<String>)
    ensures
        match r {
            Some(t) => c.persist && c.enabled && t@ == spec_learning_text(*c),
            None => !(c.persist && c.enabled),
        },
{
    if c.persist && c.enabled { Some(learning_text(c)) } else { None }
}

} // verus!
