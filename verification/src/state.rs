//! Cross-round memory the planners read: build blacklists, the ring latch,
//! threat evidence, withdrawal hysteresis, price baselines, news readings and
//! the coach.

use vstd::prelude::*;
use crate::model::{Pos, UnitKind, Item, pos_ok};
use crate::brain::news::{Outage, Outlook, NewsRead};
use crate::brain::coach::Coach;

verus! {

/// Where the day's threat came from, as one of eight compass sectors around
/// the station (0 = +x, counter-clockwise in steps of 45°).
pub open spec fn spec_arc_sector(center: Pos, p: Pos) -> u8 {
    let sx: int = if p.x > center.x { 1 } else if p.x < center.x { -1 } else { 0 };
    let sy: int = if p.y > center.y { 1 } else if p.y < center.y { -1 } else { 0 };
    if sx == 1 && sy == 0 { 0 }
    else if sx == 1 && sy == 1 { 1 }
    else if sx == 0 && sy == 1 { 2 }
    else if sx == -1 && sy == 1 { 3 }
    else if sx == -1 && sy == 0 { 4 }
    else if sx == -1 && sy == -1 { 5 }
    else if sx == 0 && sy == -1 { 6 }
    else if sx == 1 && sy == -1 { 7 }
    else { 0 }
}

/// The compass sector of `p` seen from `center`.
pub fn arc_sector(center: Pos, p: Pos) -> (s: u8)
    ensures
        s == spec_arc_sector(center, p),
        s < 8,
{
    let sx: i32 = if p.x > center.x { 1 } else if p.x < center.x { -1 } else { 0 };
    let sy: i32 = if p.y > center.y { 1 } else if p.y < center.y { -1 } else { 0 };
    if sx == 1 && sy == 0 { 0 }
    else if sx == 1 && sy == 1 { 1 }
    else if sx == 0 && sy == 1 { 2 }
    else if sx == -1 && sy == 1 { 3 }
    else if sx == -1 && sy == 0 { 4 }
    else if sx == -1 && sy == -1 { 5 }
    else if sx == 0 && sy == -1 { 6 }
    else if sx == 1 && sy == -1 { 7 }
    else { 0 }
}

/// The planners' memory across rounds.
#[derive(Debug)]
pub struct BotState {
    /// Build sites the judger refused, with what was being built there.
    pub blacklisted_builds: Vec<(Pos, UnitKind)>,
    /// The primary ring has been complete at least once.
    pub ring_ever_complete: bool,
    /// Compass sectors ranked by the wall damage taken there, worst first.
    pub threatened: Vec<u8>,
    /// The vendor's price of each ore the first time it was seen: the
    /// baseline a price spike is measured against.
    pub base_prices: Vec<(Item, i64)>,
    /// Mine outages the official news announced.
    pub outages: Vec<Outage>,
    /// Price readings of the official news, oldest first.
    pub outlooks: Vec<Outlook>,
    /// The adaptive coach.
    pub coach: Coach,
    /// A summon order already went out today.
    pub harass_done_today: bool,
    /// Summon orders burned today (ten a day at most).
    pub summon_orders_today: i64,
    /// The pioneer holds inside as the backup gunner while a hostile wave
    /// lives, instead of working its task at night.
    pub pioneer_night_backup: bool,
    /// A task session is running (the session itself is the task runner's).
    pub task_active: bool,
    /// The round the buyer expects to stand at the counter: the sellers'
    /// deadline for turning ore into gold.
    pub buy_deadline: Option<i64>,
    /// Walls the wall worker laid today.
    pub walls_built_today: i64,
    /// The cells those walls went on.
    pub walled_cells_today: Vec<Pos>,
    /// The wall worker's latched vein.
    pub wall_vein_latch: Option<Pos>,
    /// The economy worker's latched vein.
    pub vein_latch: Option<Pos>,
    /// Collects issued per vein (a vein yields ten, and the server does not
    /// report the count).
    pub vein_hits: Vec<(Pos, i64)>,
    /// Controllers the night's withdrawal rule holds off the guns.
    pub withdraw_holdout: Vec<i64>,
    /// The last round each controller had a robot within reach.
    pub withdraw_last_threat: Vec<(i64, i64)>,
    /// The economy worker has helped build the day-1 tower.
    pub d1_weapon_helped: bool,
    /// Where the day's news read has got to.
    pub news: NewsRead,
}

/// Some outage of `s` takes `ore` off the list on `day`.
pub open spec fn on_outage(s: Seq<Outage>, ore: Item, day: i64) -> bool {
    exists|i: int| 0 <= i < s.len() && (#[trigger] s[i]).ore == ore && s[i].from_day <= day <= s[i].to_day
}

/// A reading of `ore` in force on `day`: published by then, and its horizon
/// (if it has one) not yet over.
pub open spec fn in_force(o: Outlook, ore: Item, day: i64) -> bool {
    o.ore == ore && o.day <= day && (o.days == 0 || day < o.day + o.days)
}

/// The latest reading of `ore` in force on `day`.
pub open spec fn latest_outlook(s: Seq<Outlook>, ore: Item, day: i64) -> Option<Outlook>
    decreases s.len(),
{
    if s.len() == 0 {
        None
    } else if in_force(s.last(), ore, day) {
        Some(s.last())
    } else {
        latest_outlook(s.drop_last(), ore, day)
    }
}

/// Where `p`'s entry sits in a per-vein tally: the first one naming it.
pub open spec fn first_hit(s: Seq<(Pos, i64)>, p: Pos) -> Option<int>
    decreases s.len(),
{
    if s.len() == 0 {
        None
    } else if s[0].0 == p {
        Some(0)
    } else {
        match first_hit(s.drop_first(), p) {
            Some(i) => Some(i + 1),
            None => None,
        }
    }
}

/// Collects issued on the vein at `p` (zero when it has no entry).
pub open spec fn hits_in(s: Seq<(Pos, i64)>, p: Pos) -> int {
    match first_hit(s, p) {
        Some(i) => s[i].1 as int,
        None => 0,
    }
}

/// The tally after one more collect on `p`.
pub open spec fn bump(s: Seq<(Pos, i64)>, p: Pos) -> Seq<(Pos, i64)> {
    match first_hit(s, p) {
        Some(i) => s.update(i, (p, (s[i].1 + 1) as i64)),
        None => s.push((p, 1i64)),
    }
}

/// `first_hit` is the first index whose entry names `p`.
pub proof fn lemma_first_hit(s: Seq<(Pos, i64)>, p: Pos)
    ensures
        match first_hit(s, p) {
            Some(i) => 0 <= i < s.len() && s[i].0 == p && forall|j: int| 0 <= j < i ==> (#[trigger] s[j]).0 != p,
            None => forall|j: int| 0 <= j < s.len() ==> (#[trigger] s[j]).0 != p,
        },
    decreases s.len(),
{
    if s.len() > 0 && s[0].0 != p {
        lemma_first_hit(s.drop_first(), p);
        match first_hit(s.drop_first(), p) {
            Some(i) => {
                assert forall|j: int| 0 <= j < i + 1 implies (#[trigger] s[j]).0 != p by {
                    if j > 0 { assert(s[j] == s.drop_first()[j - 1]); }
                }
            },
            None => {
                assert forall|j: int| 0 <= j < s.len() implies (#[trigger] s[j]).0 != p by {
                    if j > 0 { assert(s[j] == s.drop_first()[j - 1]); }
                }
            },
        }
    }
}

impl BotState {
    pub open spec fn spec_blacklisted(&self, p: Pos, kind: UnitKind) -> bool {
        self.blacklisted_builds@.contains((p, kind))
    }

    pub open spec fn wf(&self) -> bool {
        &&& self.threatened@.len() <= 8
        &&& crate::model::prices_wf(self.base_prices@)
        &&& forall|i: int| 0 <= i < self.outlooks@.len() ==> (#[trigger] self.outlooks@[i]).wf()
        &&& self.coach.wf()
        &&& 0 <= self.summon_orders_today <= 1_000_000
        &&& forall|i: int| 0 <= i < self.vein_hits@.len() ==> 0 <= (#[trigger] self.vein_hits@[i]).1 <= 1_000_000
    }

    /// Is `ore` off the list on `day` because of an announced outage?
    pub fn ore_on_outage(&self, ore: Item, day: i64) -> (r: bool)
        ensures
            r == on_outage(self.outages@, ore, day),
    {
        let mut i: usize = 0;
        while i < self.outages.len()
            invariant
                i <= self.outages@.len(),
                forall|j: int| 0 <= j < i ==> !((#[trigger] self.outages@[j]).ore == ore
                    && self.outages@[j].from_day <= day <= self.outages@[j].to_day),
            decreases self.outages@.len() - i,
        {
            let o = self.outages[i];
            if o.ore == ore && o.from_day <= day && day <= o.to_day {
                assert(self.outages@[i as int] == o);
                return true;
            }
            i += 1;
        }
        false
    }

    /// The latest news reading of `ore` in force on `day`.
    pub fn price_outlook(&self, ore: Item, day: i64) -> (r: Option<&Outlook>)
        ensures
            match r {
                Some(o) => latest_outlook(self.outlooks@, ore, day) == Some(*o),
                None => latest_outlook(self.outlooks@, ore, day) is None,
            },
    {
        let mut i: usize = self.outlooks.len();
        assert(self.outlooks@.take(i as int) =~= self.outlooks@);
        while i > 0
            invariant
                i <= self.outlooks@.len(),
                latest_outlook(self.outlooks@, ore, day) == latest_outlook(self.outlooks@.take(i as int), ore, day),
            decreases i,
        {
            assert(self.outlooks@.take(i as int).drop_last() =~= self.outlooks@.take(i as int - 1));
            assert(self.outlooks@.take(i as int).last() == self.outlooks@[i as int - 1]);
            let o = &self.outlooks[i - 1];
            if o.ore == ore && o.day <= day && (o.days == 0 || (day as i128) < (o.day as i128) + (o.days as i128)) {
                return Some(o);
            }
            i -= 1;
        }
        None
    }

    /// Was building `kind` at `p` refused before?
    pub fn blacklisted(&self, p: Pos, kind: UnitKind) -> (r: bool)
        ensures
            r == self.spec_blacklisted(p, kind),
    {
        let mut i: usize = 0;
        while i < self.blacklisted_builds.len()
            invariant
                i <= self.blacklisted_builds@.len(),
                forall|j: int| 0 <= j < i ==> self.blacklisted_builds@[j] != (p, kind),
            decreases self.blacklisted_builds@.len() - i,
        {
            let (q, k) = self.blacklisted_builds[i];
            if q == p && k == kind {
                assert(self.blacklisted_builds@[i as int] == (p, kind));
                return true;
            }
            i += 1;
        }
        false
    }

    /// Count one burned summon order against today's budget.
    pub fn consume_summon_order(&mut self)
        requires
            old(self).summon_orders_today < 1_000_000,
        ensures
            final(self).summon_orders_today == old(self).summon_orders_today + 1,
            final(self).harass_done_today == old(self).harass_done_today,
            final(self).blacklisted_builds@ == old(self).blacklisted_builds@,
            final(self).ring_ever_complete == old(self).ring_ever_complete,
            final(self).threatened@ == old(self).threatened@,
            final(self).base_prices@ == old(self).base_prices@,
            final(self).outages@ == old(self).outages@,
            final(self).outlooks@ == old(self).outlooks@,
            final(self).coach == old(self).coach,
            final(self).pioneer_night_backup == old(self).pioneer_night_backup,
            final(self).task_active == old(self).task_active,
            final(self).buy_deadline == old(self).buy_deadline,
            final(self).walls_built_today == old(self).walls_built_today,
            final(self).walled_cells_today@ == old(self).walled_cells_today@,
            final(self).wall_vein_latch == old(self).wall_vein_latch,
            final(self).vein_latch == old(self).vein_latch,
            final(self).vein_hits@ == old(self).vein_hits@,
            final(self).withdraw_holdout@ == old(self).withdraw_holdout@,
            final(self).withdraw_last_threat@ == old(self).withdraw_last_threat@,
            final(self).d1_weapon_helped == old(self).d1_weapon_helped,
            final(self).news == old(self).news,
    {
        self.summon_orders_today = self.summon_orders_today + 1;
    }

    /// Collects issued on the vein at `p`.
    pub fn hits_of(&self, p: Pos) -> (n: i64)
        requires
            self.wf(),
        ensures
            n == hits_in(self.vein_hits@, p),
            0 <= n <= 1_000_000,
    {
        proof {
            lemma_first_hit(self.vein_hits@, p);
        }
        let mut i: usize = 0;
        while i < self.vein_hits.len()
            invariant
                i <= self.vein_hits@.len(),
                self.wf(),
                forall|j: int| 0 <= j < i ==> (#[trigger] self.vein_hits@[j]).0 != p,
            decreases self.vein_hits@.len() - i,
        {
            if self.vein_hits[i].0 == p {
                proof {
                    lemma_first_hit(self.vein_hits@, p);
                    match first_hit(self.vein_hits@, p) {
                        Some(k) => { if k < i { } else if k > i { } },
                        None => {},
                    }
                }
                return self.vein_hits[i].1;
            }
            i += 1;
        }
        0
    }

    /// Count one more collect on the vein at `p`.
    pub fn note_collect(&mut self, p: Pos)
        requires
            old(self).wf(),
            hits_in(old(self).vein_hits@, p) < 1_000_000,
        ensures
            final(self).wf(),
            final(self).vein_hits@ == bump(old(self).vein_hits@, p),
            hits_in(final(self).vein_hits@, p) == hits_in(old(self).vein_hits@, p) + 1,
            *final(self) == (BotState { vein_hits: final(self).vein_hits, ..*old(self) }),
    {
        proof {
            lemma_first_hit(self.vein_hits@, p);
        }
        let ghost s0 = self.vein_hits@;
        let mut i: usize = 0;
        while i < self.vein_hits.len()
            invariant
                i <= self.vein_hits@.len(),
                self.vein_hits@ == s0,
                old(self).vein_hits@ == s0,
                *self == *old(self),
                old(self).wf(),
                hits_in(s0, p) < 1_000_000,
                forall|j: int| 0 <= j < i ==> (#[trigger] self.vein_hits@[j]).0 != p,
            decreases self.vein_hits@.len() - i,
        {
            if self.vein_hits[i].0 == p {
                proof {
                    lemma_first_hit(s0, p);
                    match first_hit(s0, p) {
                        Some(k) => { if k < i { } else if k > i { } },
                        None => {},
                    }
                }
                let n = self.vein_hits[i].1;
                self.vein_hits.set(i, (p, n + 1));
                proof {
                    let s1 = self.vein_hits@;
                    assert forall|j: int| 0 <= j < i implies (#[trigger] s1[j]).0 != p by {
                        assert(s1[j] == s0[j]);
                    }
                    assert(first_hit(s0, p) == Some(i as int));
                    assert(s1[i as int] == (p, (n + 1) as i64));
                    lemma_first_hit(s1, p);
                    match first_hit(s1, p) {
                        Some(k) => { if k < i { } else if k > i { } },
                        None => {},
                    }
                    assert forall|j: int| 0 <= j < s1.len() implies 0 <= (#[trigger] s1[j]).1 <= 1_000_000 by {
                        if j != i { assert(s1[j] == s0[j]); }
                    }
                }
                return;
            }
            i += 1;
        }
        self.vein_hits.push((p, 1));
        proof {
            let s1 = self.vein_hits@;
            lemma_first_hit(s0, p);
            lemma_first_hit(s1, p);
            match first_hit(s1, p) {
                Some(k) => { if k < s0.len() { assert(s1[k] == s0[k]); } },
                None => { assert(s1[s0.len() as int].0 == p); },
            }
            assert forall|j: int| 0 <= j < s1.len() implies 0 <= (#[trigger] s1[j]).1 <= 1_000_000 by {
                if j < s0.len() { assert(s1[j] == s0[j]); }
            }
        }
    }

    /// The sectors the robots demonstrably came through, worst first.
    pub fn threatened_sectors(&self) -> (r: &Vec<u8>)
        ensures
            r@ == self.threatened@,
    {
        &self.threatened
    }
}

impl Default for BotState {
    fn default() -> (s: Self)
        ensures
            s.blacklisted_builds@.len() == 0,
            !s.ring_ever_complete,
            s.threatened@.len() == 0,
            s.base_prices@.len() == 0,
            s.outages@.len() == 0,
            s.outlooks@.len() == 0,
            s.coach == Coach::fresh(true),
            !s.harass_done_today,
            s.summon_orders_today == 0,
            !s.pioneer_night_backup,
            !s.task_active,
            s.buy_deadline is None,
            s.walls_built_today == 0,
            s.walled_cells_today@.len() == 0,
            s.wall_vein_latch is None,
            s.vein_latch is None,
            s.vein_hits@.len() == 0,
            s.withdraw_holdout@.len() == 0,
            s.withdraw_last_threat@.len() == 0,
            !s.d1_weapon_helped,
            s.news == NewsRead::spec_fresh(),
            s.wf(),
    {
        BotState {
            blacklisted_builds: Vec::new(),
            ring_ever_complete: false,
            threatened: Vec::new(),
            base_prices: Vec::new(),
            outages: Vec::new(),
            outlooks: Vec::new(),
            coach: Coach::default(),
            harass_done_today: false,
            summon_orders_today: 0,
            pioneer_night_backup: false,
            task_active: false,
            buy_deadline: None,
            walls_built_today: 0,
            walled_cells_today: Vec::new(),
            wall_vein_latch: None,
            vein_latch: None,
            vein_hits: Vec::new(),
            withdraw_holdout: Vec::new(),
            withdraw_last_threat: Vec::new(),
            d1_weapon_helped: false,
            news: NewsRead::default(),
        }
    }
}

} // verus!
