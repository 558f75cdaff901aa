//! The economy: what the team holds, how far the counters are, when to sell,
//! which vein to dig, and whether the purse may build another gun.

use vstd::prelude::*;
use crate::model::{Pos, Turn, Unit, UnitKind, Item, Zone, ZoneKind, cheb, chebyshev, pos_ok, pos_inner, pos_deep,
    all_pos_ok, is_controllable, is_live_tower, count_in, price_in, zone_cells, mine_list, spec_neighbours,
    lemma_count_in_bounds, STONE, IRON, COPPER, WEAPON_BUILD_COST};
use crate::state::{BotState, on_outage, latest_outlook};
use crate::protocol::RoleCommand;
use crate::brain::land_pred;
use crate::brain::route::{spec_trip_rounds, trip_rounds};
use crate::brain::news::{spec_expected_price, expected_price};

verus! {

/// Ore the vendor gets at least per walk.
pub const SELL_BATCH: i64 = 4;
/// A far vendor is worth at most this big a load.
pub const MAX_SELL_BATCH: i64 = 12;
/// A vendor this close is worth the base batch.
pub const NEAR_VENDOR: i64 = 6;
/// The walk assumed when no counter has been seen.
pub const ASSUMED_TRAVEL: i64 = 8;
/// Stone kept in hand beyond the wall demand.
pub const STONE_BUFFER: i64 = 2;
/// The day-round at which the crew turns for home.
pub const DUSK_ROUND: i64 = 55;
/// Rounds before dusk from which the night's consumables are bought.
pub const READINESS_LEAD: i64 = 25;
/// Rounds kept in hand on a mining trip before dusk.
pub const DUSK_TRIP_MARGIN: i64 = 5;
/// Price of the first weapon upgrade.
pub const WEAPON_VOUCHER1_PRICE: i64 = 100;
/// The build window closes this many rounds before dusk.
pub const FALLBACK_LEAD: i64 = 20;
/// An enemy station this low is nearly down.
pub const ENEMY_STATION_LOW_HP: i64 = 600;
/// Two enemy towers this close sit in one blast radius.
pub const ENEMY_TOWER_CLUSTER: i32 = 3;
/// The third-tower fund is guarded this many rounds before the build window
/// closes.
pub const GUARD_LEAD: i64 = 6;

// ---------------------------------------------------------------------------
// Holdings
// ---------------------------------------------------------------------------

/// How many `item` the controllable roles of `s` carry together.
pub open spec fn team_count(s: Seq<Unit>, item: Item) -> int
    decreases s.len(),
{
    if s.len() == 0 {
        0
    } else {
        team_count(s.drop_last(), item) + if is_controllable(s.last()) { count_in(s.last().backpack@, item) } else { 0 }
    }
}

/// How many `item` our controllable roles carry together.
pub fn stock_of(turn: &Turn, item: Item) -> (n: i64)
    requires
        turn.wf(),
    ensures
        n == team_count(turn.ours@, item),
        0 <= n <= 10_000_000_000,
{
    let mut total: i64 = 0;
    let mut i: usize = 0;
    while i < turn.ours.len()
        invariant
            i <= turn.ours@.len(),
            turn.wf(),
            total == team_count(turn.ours@.take(i as int), item),
            0 <= total <= 1_000_000 * i,
        decreases turn.ours@.len() - i,
    {
        assert(turn.ours@.take(i as int + 1).drop_last() =~= turn.ours@.take(i as int));
        assert(turn.ours@.take(i as int + 1).last() == turn.ours@[i as int]);
        let u = &turn.ours[i];
        assert(u.wf());
        if (u.kind == UnitKind::Worker || u.kind == UnitKind::Pioneer) && u.health > 0 {
            total = total + u.count_item(item);
        }
        i += 1;
    }
    assert(turn.ours@.take(turn.ours@.len() as int) =~= turn.ours@);
    total
}

/// How much of one ore our controllable roles carry together.
pub fn team_ores(turn: &Turn, ore: Item) -> (n: i64)
    requires
        turn.wf(),
    ensures
        n == team_count(turn.ours@, ore),
        0 <= n <= 10_000_000_000,
{
    stock_of(turn, ore)
}

pub open spec fn ore_total(role: Unit) -> int {
    count_in(role.backpack@, IRON) + count_in(role.backpack@, STONE) + count_in(role.backpack@, COPPER)
}

fn total_ores(role: &Unit) -> (n: i64)
    requires
        role.wf(),
    ensures
        n == ore_total(*role),
        0 <= n <= 3_000_000,
{
    role.count_item(IRON) + role.count_item(STONE) + role.count_item(COPPER)
}

/// Slots this pack can still fill.
pub fn free_slots(role: &Unit) -> (n: i64)
    requires
        role.wf(),
    ensures
        n == if role.capacity - role.backpack@.len() > 0 { role.capacity - role.backpack@.len() } else { 0 },
{
    let held = role.backpack.len() as i64;
    if role.capacity - held > 0 { role.capacity - held } else { 0 }
}

// ---------------------------------------------------------------------------
// Walks to the counters
// ---------------------------------------------------------------------------

/// Walkable cells around each of `targets`, in order.
pub open spec fn stands_of(turn: &Turn, targets: Seq<Pos>) -> Seq<Pos>
    decreases targets.len(),
{
    if targets.len() == 0 {
        Seq::empty()
    } else {
        stands_of(turn, targets.drop_last()) + spec_neighbours(targets.last()).filter(land_pred(turn))
    }
}

/// Distance from `from` to the nearest of `cells`.
pub open spec fn nearest(from: Pos, cells: Seq<Pos>) -> int
    decreases cells.len(),
{
    if cells.len() == 0 {
        0
    } else if cells.len() == 1 {
        cheb(from, cells[0])
    } else {
        let rest = nearest(from, cells.drop_last());
        let d = cheb(from, cells.last());
        if d < rest { d } else { rest }
    }
}

pub open spec fn spec_travel(turn: &Turn, from: Pos, targets: Seq<Pos>) -> int {
    let stands = stands_of(turn, targets);
    if stands.len() == 0 { ASSUMED_TRAVEL as int } else { nearest(from, stands) }
}

pub proof fn lemma_zone_cells_inner(s: Seq<Zone>, kind: ZoneKind)
    requires
        crate::model::zones_wf(s),
    ensures
        forall|k: int| 0 <= k < zone_cells(s, kind).len() ==> pos_inner(#[trigger] zone_cells(s, kind)[k]),
    decreases s.len(),
{
    if s.len() > 0 {
        assert(crate::model::zones_wf(s.drop_last())) by {
            assert forall|i: int| 0 <= i < s.drop_last().len() implies pos_inner((#[trigger] s.drop_last()[i]).pos) by {
                assert(s.drop_last()[i] == s[i]);
            }
        }
        lemma_zone_cells_inner(s.drop_last(), kind);
        assert(pos_inner(s[s.len() - 1].pos));
        let a = zone_cells(s.drop_last(), kind);
        let z = zone_cells(s, kind);
        assert forall|k: int| 0 <= k < z.len() implies pos_inner(#[trigger] z[k]) by {
            if k < a.len() {
                assert(z[k] == a[k]);
            }
        }
    }
}

/// Rounds of walking from `from` to the nearest stand beside any of
/// `targets` (the assumed eight when there is none).
fn travel_to(turn: &Turn, from: Pos, targets: &Vec<Pos>) -> (n: i64)
    requires
        pos_ok(from),
        forall|k: int| 0 <= k < targets@.len() ==> pos_inner(#[trigger] targets@[k]),
    ensures
        n == spec_travel(turn, from, targets@),
        0 <= n <= 2_000_000,
{
    let mut best: i64 = 0;
    let mut any = false;
    let mut t: usize = 0;
    while t < targets.len()
        invariant
            t <= targets@.len(),
            pos_ok(from),
            forall|k: int| 0 <= k < targets@.len() ==> pos_inner(#[trigger] targets@[k]),
            any == (stands_of(turn, targets@.take(t as int)).len() > 0),
            any ==> best == nearest(from, stands_of(turn, targets@.take(t as int))),
            0 <= best <= 2_000_000,
        decreases targets@.len() - t,
    {
        assert(targets@.take(t as int + 1).drop_last() =~= targets@.take(t as int));
        assert(targets@.take(t as int + 1).last() == targets@[t as int]);
        let stands = crate::brain::stand_cells(turn, targets[t]);
        let ghost before = stands_of(turn, targets@.take(t as int));
        let mut j: usize = 0;
        while j < stands.len()
            invariant
                j <= stands@.len(),
                pos_ok(from),
                all_pos_ok(stands@),
                any == ((before + stands@.take(j as int)).len() > 0),
                any ==> best == nearest(from, before + stands@.take(j as int)),
                0 <= best <= 2_000_000,
            decreases stands@.len() - j,
        {
            assert((before + stands@.take(j as int + 1)).drop_last() =~= before + stands@.take(j as int));
            assert((before + stands@.take(j as int + 1)).last() == stands@[j as int]);
            let d = chebyshev(from, stands[j]) as i64;
            if !any || d < best {
                best = d;
            }
            any = true;
            j += 1;
        }
        assert(stands@.take(stands@.len() as int) =~= stands@);
        t += 1;
    }
    assert(targets@.take(targets@.len() as int) =~= targets@);
    if any { best } else { ASSUMED_TRAVEL }
}

/// Rounds of walking from `from` to the nearest vendor stand.
pub fn vendor_travel(turn: &Turn, from: Pos) -> (n: i64)
    requires
        turn.wf(),
        pos_ok(from),
    ensures
        n == spec_travel(turn, from, zone_cells(turn.zones@, ZoneKind::Vendor)),
        0 <= n <= 2_000_000,
{
    proof {
        lemma_zone_cells_inner(turn.zones@, ZoneKind::Vendor);
    }
    let v = turn.vendors();
    travel_to(turn, from, &v)
}

/// Rounds of walking from `from` to the nearest weapon-shop stand.
pub fn shop_travel(turn: &Turn, from: Pos) -> (n: i64)
    requires
        turn.wf(),
        pos_ok(from),
    ensures
        n == spec_travel(turn, from, zone_cells(turn.zones@, ZoneKind::WeaponShop)),
        0 <= n <= 2_000_000,
{
    proof {
        lemma_zone_cells_inner(turn.zones@, ZoneKind::WeaponShop);
    }
    let v = turn.weapon_shops();
    travel_to(turn, from, &v)
}

/// Index of the last live worker of `s`.
pub open spec fn last_worker(s: Seq<Unit>) -> Option<int>
    decreases s.len(),
{
    if s.len() == 0 {
        None
    } else if s.last().kind == UnitKind::Worker && s.last().health > 0 {
        Some(s.len() - 1)
    } else {
        last_worker(s.drop_last())
    }
}

proof fn lemma_last_worker_in(s: Seq<Unit>)
    ensures
        last_worker(s) matches Some(k) ==> 0 <= k < s.len(),
    decreases s.len(),
{
    if s.len() > 0 {
        lemma_last_worker_in(s.drop_last());
    }
}

pub open spec fn spec_buyer_travel(turn: &Turn) -> int {
    match last_worker(turn.ours@) {
        Some(k) => spec_travel(turn, turn.ours@[k].pos, zone_cells(turn.zones@, ZoneKind::WeaponShop)),
        None => ASSUMED_TRAVEL as int,
    }
}

/// Rounds the dedicated buyer (the last worker) needs to reach the shop.
pub fn buyer_shop_travel(turn: &Turn) -> (n: i64)
    requires
        turn.wf(),
    ensures
        n == spec_buyer_travel(turn),
        0 <= n <= 2_000_000,
{
    proof {
        lemma_last_worker_in(turn.ours@);
    }
    let mut i: usize = turn.ours.len();
    assert(turn.ours@.take(i as int) =~= turn.ours@);
    while i > 0
        invariant
            i <= turn.ours@.len(),
            turn.wf(),
            last_worker(turn.ours@) == last_worker(turn.ours@.take(i as int)),
        decreases i,
    {
        assert(turn.ours@.take(i as int).drop_last() =~= turn.ours@.take(i as int - 1));
        assert(turn.ours@.take(i as int).last() == turn.ours@[i as int - 1]);
        let u = &turn.ours[i - 1];
        if u.kind == UnitKind::Worker && u.health > 0 {
            assert(u.wf());
            return shop_travel(turn, u.pos);
        }
        i -= 1;
    }
    ASSUMED_TRAVEL
}

pub open spec fn spec_sell_deadline(turn: &Turn, role: Unit) -> int {
    let d = DUSK_ROUND - 1 - spec_travel(turn, role.pos, zone_cells(turn.zones@, ZoneKind::Vendor));
    if d > 0 { d } else { 0 }
}

/// A role that sets off at its sell deadline reaches the vendor by the last
/// day round before dusk; the deadline is the latest such round, and a
/// longer walk to the vendor never gives a later deadline (a strictly
/// earlier one while any is left).
pub proof fn law_sell_deadline_leaves_in_time(turn: &Turn, near: Unit, far: Unit)
    ensures
        ({
            let vendors = zone_cells(turn.zones@, ZoneKind::Vendor);
            let tn = spec_travel(turn, near.pos, vendors);
            let tf = spec_travel(turn, far.pos, vendors);
            &&& spec_sell_deadline(turn, near) >= 0
            &&& spec_sell_deadline(turn, near) > 0 ==> spec_sell_deadline(turn, near) + tn == DUSK_ROUND - 1
            &&& tn < DUSK_ROUND - 1 ==> spec_sell_deadline(turn, near) + tn == DUSK_ROUND - 1
            &&& tn <= tf ==> spec_sell_deadline(turn, far) <= spec_sell_deadline(turn, near)
            &&& tn < tf && spec_sell_deadline(turn, near) > 0 ==> spec_sell_deadline(turn, far) < spec_sell_deadline(turn, near)
        }),
{
}

/// Latest day-round at which a role must set off for the vendor so its pack
/// can still be cashed out before nightfall.
pub fn sell_deadline(turn: &Turn, role: &Unit) -> (n: i64)
    requires
        turn.wf(),
        role.wf(),
    ensures
        n == spec_sell_deadline(turn, *role),
{
    let d = DUSK_ROUND - 1 - vendor_travel(turn, role.pos);
    if d > 0 { d } else { 0 }
}

// ---------------------------------------------------------------------------
// The opponent's weakness
// ---------------------------------------------------------------------------

pub open spec fn towers_clustered(s: Seq<Unit>) -> bool {
    exists|i: int, j: int| 0 <= i < j < s.len() && is_live_tower(#[trigger] s[i]) && is_live_tower(#[trigger] s[j])
        && cheb(s[i].pos, s[j].pos) <= ENEMY_TOWER_CLUSTER
}

pub open spec fn spec_boss_window(turn: &Turn) -> bool {
    (turn.spec_enemy_station() matches Some(st) && st.health <= ENEMY_STATION_LOW_HP)
        || towers_clustered(turn.enemy@)
}

/// Is the enemy in a state a boss wave can finish: their station (when in
/// sight) at 600 HP or less, or two of their towers within one blast radius?
pub fn boss_suppression_window(turn: &Turn) -> (r: bool)
    requires
        turn.wf(),
    ensures
        r == spec_boss_window(turn),
{
    match turn.enemy_station() {
        Some(st) => {
            if st.health <= ENEMY_STATION_LOW_HP {
                return true;
            }
        },
        None => {},
    }
    let mut i: usize = 0;
    while i < turn.enemy.len()
        invariant
            i <= turn.enemy@.len(),
            turn.wf(),
            forall|a: int, b: int| 0 <= a < i && a < b < turn.enemy@.len() ==> !(is_live_tower(#[trigger] turn.enemy@[a])
                && is_live_tower(#[trigger] turn.enemy@[b]) && cheb(turn.enemy@[a].pos, turn.enemy@[b].pos) <= ENEMY_TOWER_CLUSTER),
        decreases turn.enemy@.len() - i,
    {
        let a = &turn.enemy[i];
        assert(a.wf());
        if a.kind.is_tower() && a.health > 0 {
            let mut j: usize = i + 1;
            while j < turn.enemy.len()
                invariant
                    i < turn.enemy@.len(),
                    i + 1 <= j <= turn.enemy@.len(),
                    turn.wf(),
                    is_live_tower(turn.enemy@[i as int]),
                    forall|a: int, b: int| 0 <= a < i && a < b < turn.enemy@.len() ==> !(is_live_tower(#[trigger] turn.enemy@[a])
                        && is_live_tower(#[trigger] turn.enemy@[b]) && cheb(turn.enemy@[a].pos, turn.enemy@[b].pos) <= ENEMY_TOWER_CLUSTER),
                    forall|b: int| i < b < j ==> !(is_live_tower(#[trigger] turn.enemy@[b])
                        && cheb(turn.enemy@[i as int].pos, turn.enemy@[b].pos) <= ENEMY_TOWER_CLUSTER),
                decreases turn.enemy@.len() - j,
            {
                let b = &turn.enemy[j];
                assert(b.wf());
                assert(turn.enemy@[i as int].wf());
                if b.kind.is_tower() && b.health > 0 && chebyshev(turn.enemy[i].pos, b.pos) <= ENEMY_TOWER_CLUSTER {
                    assert(is_live_tower(turn.enemy@[i as int]) && is_live_tower(turn.enemy@[j as int]));
                    return true;
                }
                j += 1;
            }
        }
        i += 1;
    }
    false
}

// ---------------------------------------------------------------------------
// What the purse can reach
// ---------------------------------------------------------------------------

/// The vendor's price of `ore` as the liquidation values it: today's price,
/// 1 when unlisted, never below 1.
pub open spec fn liquid_price(turn: &Turn, ore: Item) -> int {
    let p = match price_in(turn.vendor_prices@, ore) { Some(p) => p as int, None => 1 };
    if p > 1 { p } else { 1 }
}

pub open spec fn role_liquid(turn: &Turn, u: Unit) -> int {
    if is_controllable(u) {
        liquid_price(turn, IRON) * count_in(u.backpack@, IRON) + liquid_price(turn, COPPER) * count_in(u.backpack@, COPPER)
    } else {
        0
    }
}

pub open spec fn liquid_sum(turn: &Turn, s: Seq<Unit>) -> int
    decreases s.len(),
{
    if s.len() == 0 { 0 } else { liquid_sum(turn, s.drop_last()) + role_liquid(turn, s.last()) }
}

/// The team's spending power is never below the coins in hand: every ore
/// the vendor takes is worth at least one gold.
pub proof fn law_liquid_at_least_gold(turn: &Turn, s: Seq<Unit>)
    ensures
        turn.gold + liquid_sum(turn, s) >= turn.gold,
    decreases s.len(),
{
    if s.len() > 0 {
        law_liquid_at_least_gold(turn, s.drop_last());
        let u = s.last();
        crate::model::lemma_count_in_bounds(u.backpack@, IRON);
        crate::model::lemma_count_in_bounds(u.backpack@, COPPER);
        assert(liquid_price(turn, IRON) * count_in(u.backpack@, IRON) >= 0) by (nonlinear_arith)
            requires liquid_price(turn, IRON) >= 1, count_in(u.backpack@, IRON) >= 0;
        assert(liquid_price(turn, COPPER) * count_in(u.backpack@, COPPER) >= 0) by (nonlinear_arith)
            requires liquid_price(turn, COPPER) >= 1, count_in(u.backpack@, COPPER) >= 0;
    }
}

/// Stone is worth nothing to the spending power: two packs with the same
/// iron and copper count the same, whatever stone they hold.
pub proof fn law_liquid_ignores_stone(turn: &Turn, u: Unit, pack: Seq<Item>)
    requires
        count_in(pack, IRON) == count_in(u.backpack@, IRON),
        count_in(pack, COPPER) == count_in(u.backpack@, COPPER),
    ensures
        forall|v: Unit| v.kind == u.kind && v.health == u.health && v.backpack@ == pack
            ==> #[trigger] role_liquid(turn, v) == role_liquid(turn, u),
{
}

fn liquid_price_of(turn: &Turn, ore: Item) -> (p: i64)
    requires
        turn.wf(),
    ensures
        p == liquid_price(turn, ore),
        1 <= p <= 1_000_000,
{
    let p = match crate::model::price_of(&turn.vendor_prices, ore) {
        Some(p) => p,
        None => 1,
    };
    if p > 1 { p } else { 1 }
}

/// Gold the team could raise today: coins in hand plus every iron and copper
/// in a backpack at today's price. Stone is the wall line's raw material and
/// counts for nothing.
pub fn liquid_gold(turn: &Turn) -> (g: i64)
    requires
        turn.wf(),
    ensures
        g == turn.gold + liquid_sum(turn, turn.ours@),
{
    let iron = liquid_price_of(turn, IRON);
    let copper = liquid_price_of(turn, COPPER);
    let mut total: i64 = turn.gold;
    let mut i: usize = 0;
    while i < turn.ours.len()
        invariant
            i <= turn.ours@.len(),
            turn.wf(),
            iron == liquid_price(turn, IRON),
            copper == liquid_price(turn, COPPER),
            1 <= iron <= 1_000_000,
            1 <= copper <= 1_000_000,
            total == turn.gold + liquid_sum(turn, turn.ours@.take(i as int)),
            -1_000_000_000 <= total <= 1_000_000_000 + 2_000_000_000_000 * i,
        decreases turn.ours@.len() - i,
    {
        assert(turn.ours@.take(i as int + 1).drop_last() =~= turn.ours@.take(i as int));
        assert(turn.ours@.take(i as int + 1).last() == turn.ours@[i as int]);
        let u = &turn.ours[i];
        assert(u.wf());
        if (u.kind == UnitKind::Worker || u.kind == UnitKind::Pioneer) && u.health > 0 {
            let a = u.count_item(IRON);
            let b = u.count_item(COPPER);
            assert(0 <= iron * a <= 1_000_000_000_000) by (nonlinear_arith)
                requires 1 <= iron <= 1_000_000, 0 <= a <= 1_000_000;
            assert(0 <= copper * b <= 1_000_000_000_000) by (nonlinear_arith)
                requires 1 <= copper <= 1_000_000, 0 <= b <= 1_000_000;
            total = total + iron * a + copper * b;
        }
        i += 1;
    }
    assert(turn.ours@.take(turn.ours@.len() as int) =~= turn.ours@);
    total
}

/// Number of our standing towers.
pub open spec fn tower_total(turn: &Turn) -> int {
    crate::model::tower_count(turn.ours@)
}

pub open spec fn spec_may_build_weapon(turn: &Turn) -> bool {
    if tower_total(turn) >= 3 || turn.gold < WEAPON_BUILD_COST {
        false
    } else if tower_total(turn) == 2 && turn.day == 1 && turn.in_day_round < DUSK_ROUND - FALLBACK_LEAD {
        let station_l1 = match turn.spec_station() { Some(s) => s.level <= 1, None => true };
        let has_voucher = team_count(turn.ours@, Item::WeaponUpgradeVoucher1) > 0
            || team_count(turn.ours@, Item::StationUpgradeVoucher1) > 0;
        !(station_l1 && !has_voucher && turn.gold < WEAPON_BUILD_COST + WEAPON_VOUCHER1_PRICE)
    } else {
        true
    }
}

/// May we spend 25 gold on another weapon this round? Three towers is the
/// cap and 25 gold the price; on day 1 the third gun waits while a level-1
/// station has no upgrade voucher and the purse cannot pay for both.
pub fn may_build_weapon(turn: &Turn, state: &BotState) -> (r: bool)
    requires
        turn.wf(),
    ensures
        r == spec_may_build_weapon(turn),
{
    let towers = turn.towers_len();
    if towers >= 3 || turn.gold < WEAPON_BUILD_COST {
        return false;
    }
    if towers == 2 && turn.day == 1 && turn.in_day_round < DUSK_ROUND - FALLBACK_LEAD {
        let station_l1 = match turn.station() {
            Some(s) => s.level <= 1,
            None => true,
        };
        let has_voucher = stock_of(turn, Item::WeaponUpgradeVoucher1) > 0
            || stock_of(turn, Item::StationUpgradeVoucher1) > 0;
        if station_l1 && !has_voucher && turn.gold < WEAPON_BUILD_COST + WEAPON_VOUCHER1_PRICE {
            return false;
        }
    }
    true
}

pub open spec fn spec_upgrade_reachable(turn: &Turn) -> bool {
    team_count(turn.ours@, Item::WeaponUpgradeVoucher1) > 0
        || turn.gold + liquid_sum(turn, turn.ours@) >= WEAPON_VOUCHER1_PRICE
}

/// Can the team still put the first weapon upgrade together before dusk: a
/// voucher in hand, or liquid wealth of 100?
pub fn upgrade_reachable(turn: &Turn, state: &BotState) -> (r: bool)
    requires
        turn.wf(),
    ensures
        r == spec_upgrade_reachable(turn),
{
    stock_of(turn, Item::WeaponUpgradeVoucher1) > 0 || liquid_gold(turn) >= WEAPON_VOUCHER1_PRICE
}

pub open spec fn any_upgraded_tower(s: Seq<Unit>) -> bool {
    exists|i: int| 0 <= i < s.len() && is_live_tower(#[trigger] s[i]) && s[i].level >= 2
}

fn some_tower_upgraded(turn: &Turn) -> (r: bool)
    ensures
        r == any_upgraded_tower(turn.ours@),
{
    let mut i: usize = 0;
    while i < turn.ours.len()
        invariant
            i <= turn.ours@.len(),
            forall|k: int| 0 <= k < i ==> !(is_live_tower(#[trigger] turn.ours@[k]) && turn.ours@[k].level >= 2),
        decreases turn.ours@.len() - i,
    {
        let u = &turn.ours[i];
        if u.kind.is_tower() && u.health > 0 && u.level >= 2 {
            assert(is_live_tower(turn.ours@[i as int]));
            return true;
        }
        i += 1;
    }
    false
}

pub open spec fn spec_third_tower_guard(turn: &Turn) -> bool {
    tower_total(turn) == 2 && !any_upgraded_tower(turn.ours@) && !spec_upgrade_reachable(turn)
        && turn.in_day_round >= DUSK_ROUND - FALLBACK_LEAD - GUARD_LEAD
}

/// Guard the 25-gold third-tower fund from the shopping list: two level-1
/// towers, the first upgrade out of reach, and the build window near.
pub fn third_tower_guard(turn: &Turn, state: &BotState) -> (r: bool)
    requires
        turn.wf(),
    ensures
        r == spec_third_tower_guard(turn),
{
    if turn.towers_len() != 2 || some_tower_upgraded(turn) {
        return false;
    }
    if upgrade_reachable(turn, state) {
        return false;
    }
    turn.in_day_round >= DUSK_ROUND - FALLBACK_LEAD - GUARD_LEAD
}

// ---------------------------------------------------------------------------
// Vouchers
// ---------------------------------------------------------------------------

pub open spec fn upgrades_kind(voucher: Item, kind: UnitKind) -> bool {
    match voucher {
        Item::WeaponUpgradeVoucher1 | Item::WeaponUpgradeVoucher2 => kind.spec_is_tower(),
        Item::StationUpgradeVoucher1 | Item::StationUpgradeVoucher2 => kind == UnitKind::Station,
        Item::WallUpgradeVoucher1 | Item::WallUpgradeVoucher2 => kind == UnitKind::Wall,
        _ => false,
    }
}

/// The level a voucher lifts a building from.
pub open spec fn voucher_level(voucher: Item) -> i32 {
    match voucher {
        Item::WeaponUpgradeVoucher1 | Item::StationUpgradeVoucher1 | Item::WallUpgradeVoucher1 => 1,
        _ => 2,
    }
}

pub open spec fn upgradable(voucher: Item, u: Unit) -> bool {
    u.health > 0 && upgrades_kind(voucher, u.kind) && u.level == voucher_level(voucher)
}

/// The nearest building of `s` the voucher can upgrade (the first on ties).
pub open spec fn voucher_best(role: Unit, voucher: Item, s: Seq<Unit>) -> Option<Pos>
    decreases s.len(),
{
    if s.len() == 0 {
        None
    } else {
        let rest = voucher_best(role, voucher, s.drop_last());
        let u = s.last();
        if !upgradable(voucher, u) {
            rest
        } else {
            match rest {
                None => Some(u.pos),
                Some(b) => if cheb(role.pos, u.pos) < cheb(role.pos, b) { Some(u.pos) } else { rest },
            }
        }
    }
}

/// The nearest of our buildings the voucher can upgrade.
pub fn voucher_target(turn: &Turn, role: &Unit, voucher: Item) -> (r: Option<Pos>)
    requires
        turn.wf(),
        role.wf(),
    ensures
        r == voucher_best(*role, voucher, turn.ours@),
{
    let want_level: i32 = match voucher {
        Item::WeaponUpgradeVoucher1 | Item::StationUpgradeVoucher1 | Item::WallUpgradeVoucher1 => 1,
        _ => 2,
    };
    let mut best: Option<Pos> = None;
    let mut best_d: i32 = 0;
    let mut i: usize = 0;
    while i < turn.ours.len()
        invariant
            i <= turn.ours@.len(),
            turn.wf(),
            role.wf(),
            want_level == voucher_level(voucher),
            best == voucher_best(*role, voucher, turn.ours@.take(i as int)),
            best matches Some(b) ==> best_d == cheb(role.pos, b),
        decreases turn.ours@.len() - i,
    {
        assert(turn.ours@.take(i as int + 1).drop_last() =~= turn.ours@.take(i as int));
        assert(turn.ours@.take(i as int + 1).last() == turn.ours@[i as int]);
        let u = &turn.ours[i];
        assert(u.wf());
        let kind_ok = match voucher {
            Item::WeaponUpgradeVoucher1 | Item::WeaponUpgradeVoucher2 => u.kind.is_tower(),
            Item::StationUpgradeVoucher1 | Item::StationUpgradeVoucher2 => u.kind == UnitKind::Station,
            Item::WallUpgradeVoucher1 | Item::WallUpgradeVoucher2 => u.kind == UnitKind::Wall,
            _ => false,
        };
        if u.health > 0 && kind_ok && u.level == want_level {
            let d = chebyshev(role.pos, u.pos);
            let replace = match best {
                None => true,
                Some(_) => d < best_d,
            };
            if replace {
                best = Some(u.pos);
                best_d = d;
            }
        }
        i += 1;
    }
    assert(turn.ours@.take(turn.ours@.len() as int) =~= turn.ours@);
    best
}

/// The six upgrade vouchers, in the order a pack is searched.
pub open spec fn voucher_order() -> Seq<Item> {
    seq![Item::WeaponUpgradeVoucher1, Item::WeaponUpgradeVoucher2, Item::StationUpgradeVoucher1,
        Item::StationUpgradeVoucher2, Item::WallUpgradeVoucher1, Item::WallUpgradeVoucher2]
}

/// The upgrade vouchers this role carries, in voucher order.
pub fn held_vouchers(role: &Unit) -> (v: Vec<Item>)
    requires
        role.wf(),
    ensures
        v@ == voucher_order().filter(|i: Item| count_in(role.backpack@, i) > 0),
{
    let order = vec![Item::WeaponUpgradeVoucher1, Item::WeaponUpgradeVoucher2, Item::StationUpgradeVoucher1,
        Item::StationUpgradeVoucher2, Item::WallUpgradeVoucher1, Item::WallUpgradeVoucher2];
    assert(order@ =~= voucher_order());
    let ghost pred = |i: Item| count_in(role.backpack@, i) > 0;
    let mut out: Vec<Item> = Vec::new();
    let mut k: usize = 0;
    while k < order.len()
        invariant
            k <= order@.len(),
            role.wf(),
            order@ == voucher_order(),
            pred == (|i: Item| count_in(role.backpack@, i) > 0),
            out@ == order@.take(k as int).filter(pred),
        decreases order@.len() - k,
    {
        proof {
            crate::model::lemma_filter_step(order@, k as int, pred);
        }
        if role.count_item(order[k]) > 0 {
            out.push(order[k]);
        }
        k += 1;
    }
    assert(order@.take(order@.len() as int) =~= order@);
    out
}

// ---------------------------------------------------------------------------
// Selling
// ---------------------------------------------------------------------------

/// Stone the team holds beyond the wall demand and the buffer.
pub open spec fn stone_surplus(turn: &Turn, stone_demand: int) -> int {
    team_count(turn.ours@, STONE) - stone_demand - STONE_BUFFER
}

pub open spec fn spec_sellable_ores(turn: &Turn, role: Unit, stone_demand: int) -> int {
    let stone = count_in(role.backpack@, STONE);
    let s = stone_surplus(turn, stone_demand);
    let surplus = if s > 0 { s } else { 0 };
    ore_total(role) - stone + if surplus < stone { surplus } else { stone }
}

/// Ore in this pack the vendor would actually take: iron and copper, and
/// the stone the team holds beyond the wall demand.
pub fn sellable_ores(turn: &Turn, role: &Unit, stone_demand: i64) -> (n: i64)
    requires
        turn.wf(),
        role.wf(),
        -1_000_000_000_000 <= stone_demand <= 1_000_000_000_000,
    ensures
        n == spec_sellable_ores(turn, *role, stone_demand as int),
        0 <= n,
{
    let stone = role.count_item(STONE);
    let team_stone = team_ores(turn, STONE);
    let s = team_stone - stone_demand - STONE_BUFFER;
    let surplus = if s > 0 { s } else { 0 };
    proof {
        lemma_count_in_bounds(role.backpack@, IRON);
        lemma_count_in_bounds(role.backpack@, COPPER);
    }
    total_ores(role) - stone + if surplus < stone { surplus } else { stone }
}

/// The baseline price of `ore`: first seen price, 1 when unknown, at least 1.
pub open spec fn base_price(state: &BotState, ore: Item) -> int {
    let b = match price_in(state.base_prices@, ore) { Some(p) => p as int, None => 1 };
    if b > 1 { b } else { 1 }
}

/// Today's vendor price of `ore`, the baseline when unlisted.
pub open spec fn today_price(turn: &Turn, state: &BotState, ore: Item) -> int {
    match price_in(turn.vendor_prices@, ore) { Some(p) => p as int, None => base_price(state, ore) }
}

/// The ore and count a sale of `ore` offers, when there is one.
pub open spec fn sale_offer(turn: &Turn, state: &BotState, role: Unit, stone_demand: int, ore: Item) -> Option<(int, i64)> {
    let held = count_in(role.backpack@, ore);
    if held <= 0 {
        None
    } else if ore == STONE && team_count(turn.ours@, STONE) <= stone_demand + STONE_BUFFER {
        None
    } else {
        let s = stone_surplus(turn, stone_demand);
        let count = if ore == STONE { if held < (if s > 0 { s } else { 0 }) { held } else { if s > 0 { s } else { 0 } } } else { held };
        if count <= 0 {
            None
        } else {
            let base = base_price(state, ore);
            let price = today_price(turn, state, ore);
            Some((price * count + if price >= base * 2 { 50int } else { 0int }, count as i64))
        }
    }
}

pub open spec fn spec_sell_command(turn: &Turn, state: &BotState, role: Unit, stone_demand: int) -> Option<RoleCommand> {
    let a = sale_offer(turn, state, role, stone_demand, IRON);
    let b = sale_offer(turn, state, role, stone_demand, STONE);
    let c = sale_offer(turn, state, role, stone_demand, COPPER);
    let ab: Option<(int, i64, Item)> = match (a, b) {
        (None, None) => None,
        (Some(x), None) => Some((x.0, x.1, IRON)),
        (None, Some(y)) => Some((y.0, y.1, STONE)),
        (Some(x), Some(y)) => if y.0 > x.0 { Some((y.0, y.1, STONE)) } else { Some((x.0, x.1, IRON)) },
    };
    let abc = match (ab, c) {
        (None, None) => None,
        (Some(x), None) => Some(x),
        (None, Some(z)) => Some((z.0, z.1, COPPER)),
        (Some(x), Some(z)) => if z.0 > x.0 { Some((z.0, z.1, COPPER)) } else { Some(x) },
    };
    match abc {
        Some(x) => Some(RoleCommand::Sell(x.2, x.1)),
        None => None,
    }
}

/// The ore a sale may move, and how much of it: what the pack holds, and
/// of stone only what the team holds beyond the ring's demand and buffer.
pub open spec fn may_sell(turn: &Turn, role: Unit, stone_demand: int, ore: Item) -> bool {
    count_in(role.backpack@, ore) > 0 && !(ore == STONE && team_count(turn.ours@, STONE) <= stone_demand + STONE_BUFFER)
}

proof fn lemma_offer(turn: &Turn, state: &BotState, role: Unit, stone_demand: int, ore: Item)
    requires
        role.wf(),
    ensures
        sale_offer(turn, state, role, stone_demand, ore) matches Some(o) ==> may_sell(turn, role, stone_demand, ore)
            && 1 <= o.1 <= count_in(role.backpack@, ore)
            && (ore == STONE ==> o.1 <= stone_surplus(turn, stone_demand)),
        may_sell(turn, role, stone_demand, ore) ==> sale_offer(turn, state, role, stone_demand, ore) is Some,
{
    crate::model::lemma_count_in_bounds(role.backpack@, ore);
}

/// The sale a role makes sells an ore it may sell, at least one and at most
/// what it holds; stone only above what the ring keeps, and never more than
/// that surplus. There is a sale exactly when some ore may be sold.
pub proof fn law_sale_keeps_the_rings_stone(turn: &Turn, state: &BotState, role: Unit, stone_demand: int)
    requires
        role.wf(),
    ensures
        spec_sell_command(turn, state, role, stone_demand) matches Some(RoleCommand::Sell(o, n)) ==>
            (o == IRON || o == STONE || o == COPPER) && may_sell(turn, role, stone_demand, o)
            && 1 <= n <= count_in(role.backpack@, o)
            && (o == STONE ==> n <= stone_surplus(turn, stone_demand)),
        spec_sell_command(turn, state, role, stone_demand) is None <==>
            !(may_sell(turn, role, stone_demand, IRON) || may_sell(turn, role, stone_demand, STONE)
                || may_sell(turn, role, stone_demand, COPPER)),
        spec_sell_command(turn, state, role, stone_demand) is None
            || spec_sell_command(turn, state, role, stone_demand) matches Some(RoleCommand::Sell(_, _)),
{
    lemma_offer(turn, state, role, stone_demand, IRON);
    lemma_offer(turn, state, role, stone_demand, STONE);
    lemma_offer(turn, state, role, stone_demand, COPPER);
}

fn offer(turn: &Turn, state: &BotState, role: &Unit, stone_demand: i64, ore: Item) -> (r: Option<(i64, i64)>)
    requires
        turn.wf(),
        state.wf(),
        role.wf(),
        -1_000_000_000_000 <= stone_demand <= 1_000_000_000_000,
    ensures
        match sale_offer(turn, state, *role, stone_demand as int, ore) {
            None => r is None,
            Some(x) => r matches Some(y) && y.0 == x.0 && y.1 == x.1,
        },
{
    let held = role.count_item(ore);
    if held <= 0 {
        return None;
    }
    let team_stone = team_ores(turn, STONE);
    if ore == STONE && team_stone <= stone_demand + STONE_BUFFER {
        return None;
    }
    let s = team_stone - stone_demand - STONE_BUFFER;
    let sp = if s > 0 { s } else { 0 };
    let count = if ore == STONE { if held < sp { held } else { sp } } else { held };
    if count <= 0 {
        return None;
    }
    proof {
        crate::model::lemma_price_in_bounds(state.base_prices@, ore);
        crate::model::lemma_price_in_bounds(turn.vendor_prices@, ore);
    }
    let b = match crate::model::price_of(&state.base_prices, ore) {
        Some(p) => p,
        None => 1,
    };
    let base = if b > 1 { b } else { 1 };
    let price = match crate::model::price_of(&turn.vendor_prices, ore) {
        Some(p) => p,
        None => base,
    };
    assert(-1_000_000_000_000 <= price * count <= 1_000_000_000_000) by (nonlinear_arith)
        requires -1_000_000 <= price <= 1_000_000, 0 <= count <= 1_000_000;
    Some((price * count + if price >= base * 2 { 50 } else { 0 }, count))
}

/// Sell the most valuable stack (one ore kind per round); stone only down to
/// what the wall line still needs.
pub fn sell_command(turn: &Turn, state: &BotState, role: &Unit, stone_demand: i64) -> (r: Option<RoleCommand>)
    requires
        turn.wf(),
        state.wf(),
        role.wf(),
        -1_000_000_000_000 <= stone_demand <= 1_000_000_000_000,
    ensures
        r == spec_sell_command(turn, state, *role, stone_demand as int),
{
    let a = offer(turn, state, role, stone_demand, IRON);
    let b = offer(turn, state, role, stone_demand, STONE);
    let c = offer(turn, state, role, stone_demand, COPPER);
    let ab: Option<(i64, i64, Item)> = match (a, b) {
        (None, None) => None,
        (Some(x), None) => Some((x.0, x.1, IRON)),
        (None, Some(y)) => Some((y.0, y.1, STONE)),
        (Some(x), Some(y)) => if y.0 > x.0 { Some((y.0, y.1, STONE)) } else { Some((x.0, x.1, IRON)) },
    };
    let abc: Option<(i64, i64, Item)> = match (ab, c) {
        (None, None) => None,
        (Some(x), None) => Some(x),
        (None, Some(z)) => Some((z.0, z.1, COPPER)),
        (Some(x), Some(z)) => if z.0 > x.0 { Some((z.0, z.1, COPPER)) } else { Some(x) },
    };
    match abc {
        Some(x) => Some(RoleCommand::Sell(x.2, x.1)),
        None => None,
    }
}

// ---------------------------------------------------------------------------
// Mining
// ---------------------------------------------------------------------------

/// What an ore is worth per load to the mine pick: today's price (1 when
/// unlisted), moved by the news reading in force.
pub open spec fn spec_priced(turn: &Turn, state: &BotState, ore: Item) -> int {
    let current = match price_in(turn.vendor_prices@, ore) { Some(p) => p as int, None => 1 };
    spec_expected_price(current, latest_outlook(state.outlooks@, ore, turn.day))
}

pub fn priced(turn: &Turn, state: &BotState, ore: Item) -> (p: i64)
    requires
        turn.wf(),
        state.wf(),
    ensures
        p == spec_priced(turn, state, ore),
        -2_000_000 <= p <= 2_000_000,
{
    proof {
        crate::model::lemma_price_in_bounds(turn.vendor_prices@, ore);
    }
    let current = match crate::model::price_of(&turn.vendor_prices, ore) {
        Some(p) => p,
        None => 1,
    };
    let o = state.price_outlook(ore, turn.day);
    proof {
        if o is Some {
            lemma_latest_outlook_wf(state.outlooks@, ore, turn.day);
        }
    }
    let p = expected_price(current, o);
    proof {
        lemma_expected_price_bound(current as int, latest_outlook(state.outlooks@, ore, turn.day));
    }
    p
}

proof fn lemma_latest_outlook_wf(s: Seq<crate::brain::news::Outlook>, ore: Item, day: i64)
    requires
        forall|i: int| 0 <= i < s.len() ==> (#[trigger] s[i]).wf(),
    ensures
        latest_outlook(s, ore, day) matches Some(o) ==> o.wf(),
    decreases s.len(),
{
    if s.len() > 0 {
        assert(s[s.len() - 1].wf());
        assert forall|i: int| 0 <= i < s.drop_last().len() implies (#[trigger] s.drop_last()[i]).wf() by {
            assert(s.drop_last()[i] == s[i]);
        }
        lemma_latest_outlook_wf(s.drop_last(), ore, day);
    }
}

proof fn lemma_expected_price_bound(current: int, o: Option<crate::brain::news::Outlook>)
    requires
        -1_000_000 <= current <= 1_000_000,
        o matches Some(x) ==> x.wf(),
    ensures
        -2_000_000 <= spec_expected_price(current, o) <= 2_000_000,
{
    if let Some(x) = o {
        let lift: int = match x.direction {
            crate::brain::news::Direction::Rise => x.confidence as int,
            crate::brain::news::Direction::Fall => -x.confidence,
            crate::brain::news::Direction::Flat => 0,
        };
        let f = 100 + crate::brain::news::div_toward_zero(lift, 2);
        assert(50 <= f <= 150);
        assert(-150_000_000 <= current * f <= 150_000_000) by (nonlinear_arith)
            requires -1_000_000 <= current <= 1_000_000, 50 <= f <= 150;
    }
}


// ---------------------------------------------------------------------------
// The purchase plan
// ---------------------------------------------------------------------------

/// One thing the team wants to buy.
#[derive(Debug, Clone, Copy)]
pub struct Need {
    pub name: Item,
    pub num: i64,
    /// Lower is more urgent.
    pub priority: i32,
    /// Latest day-round by which the purchase must be complete (0: none).
    pub latest_round: i64,
    /// Effective HP bought per 100 gold (0 for consumables).
    pub value: i64,
    /// Combat power one unit adds; over `per_gold` it is the combat bought
    /// per gold (0 over 1 when the item is unpriced).
    pub power: i64,
    pub per_gold: i64,
    /// Why the item is on the list.
    pub reason: &'static str,
}

pub open spec fn spec_effective_hp(item: Item) -> int {
    match item {
        Item::WallUpgradeVoucher1 | Item::WallUpgradeVoucher2 => 500,
        Item::StationUpgradeVoucher1 | Item::StationUpgradeVoucher2 => 2250,
        Item::WeaponUpgradeVoucher1 => 1500,
        Item::WeaponUpgradeVoucher2 => 2000,
        _ => 0,
    }
}

/// Combat power one unit of `item` adds to tonight's defence.
pub open spec fn spec_combat_power(item: Item) -> int {
    match item {
        Item::WeaponUpgradeVoucher1 => 600,
        Item::WeaponUpgradeVoucher2 => 900,
        Item::StationUpgradeVoucher1 | Item::StationUpgradeVoucher2 => 2250,
        Item::WallUpgradeVoucher1 | Item::WallUpgradeVoucher2 => 500,
        Item::Medicine => 400,
        Item::WallFixer => 300,
        Item::Bomb => 200,
        Item::DizzyWeapon => 150,
        Item::BossRobotSummonOrder => 100,
        _ => 0,
    }
}

fn effective_hp(item: Item) -> (h: i64)
    ensures
        h == spec_effective_hp(item),
{
    match item {
        Item::WallUpgradeVoucher1 | Item::WallUpgradeVoucher2 => 500,
        Item::StationUpgradeVoucher1 | Item::StationUpgradeVoucher2 => 2250,
        Item::WeaponUpgradeVoucher1 => 1500,
        Item::WeaponUpgradeVoucher2 => 2000,
        _ => 0,
    }
}

fn combat_power(item: Item) -> (p: i64)
    ensures
        p == spec_combat_power(item),
{
    match item {
        Item::WeaponUpgradeVoucher1 => 600,
        Item::WeaponUpgradeVoucher2 => 900,
        Item::StationUpgradeVoucher1 | Item::StationUpgradeVoucher2 => 2250,
        Item::WallUpgradeVoucher1 | Item::WallUpgradeVoucher2 => 500,
        Item::Medicine => 400,
        Item::WallFixer => 300,
        Item::Bomb => 200,
        Item::DizzyWeapon => 150,
        Item::BossRobotSummonOrder => 100,
        _ => 0,
    }
}

/// The shop price of `item`, `i64::MAX` when unlisted.
pub open spec fn shop_price(turn: &Turn, item: Item) -> int {
    match price_in(turn.weapon_shop@, item) { Some(p) => p as int, None => i64::MAX as int }
}

pub open spec fn priced_ok(price: int) -> bool {
    price > 0 && price != i64::MAX
}

fn shop_price_of(turn: &Turn, item: Item) -> (p: i64)
    requires
        turn.wf(),
    ensures
        p == shop_price(turn, item),
        priced_ok(p as int) ==> 1 <= p <= 1_000_000,
{
    proof {
        crate::model::lemma_price_in_bounds(turn.weapon_shop@, item);
    }
    match crate::model::price_of(&turn.weapon_shop, item) {
        Some(p) => p,
        None => i64::MAX,
    }
}

pub open spec fn spec_survival_value(item: Item, price: int) -> int {
    let hp = spec_effective_hp(item);
    if hp == 0 || !priced_ok(price) { 0 } else { hp * 100 / price }
}

/// A need priced the way every list entry is: effective HP per 100 gold and
/// combat power over the price.
pub open spec fn spec_need(turn: &Turn, item: Item, num: int, priority: int, latest: int, with_value: bool, reason: &'static str) -> Need {
    let price = shop_price(turn, item);
    Need {
        name: item,
        num: num as i64,
        priority: priority as i32,
        latest_round: latest as i64,
        value: if with_value { spec_survival_value(item, price) as i64 } else { 0 },
        power: if priced_ok(price) { spec_combat_power(item) as i64 } else { 0 },
        per_gold: if priced_ok(price) { price as i64 } else { 1 },
        reason,
    }
}

fn make_need(turn: &Turn, item: Item, num: i64, priority: i32, latest: i64, with_value: bool, reason: &'static str) -> (n: Need)
    requires
        turn.wf(),
    ensures
        n == spec_need(turn, item, num as int, priority as int, latest as int, with_value, reason),
        n.per_gold >= 1,
        0 <= n.power <= 2250,
{
    let price = shop_price_of(turn, item);
    let ok = price > 0 && price != i64::MAX;
    let value = if with_value {
        let hp = effective_hp(item);
        if hp == 0 || !ok { 0 } else { hp * 100 / price }
    } else {
        0
    };
    Need {
        name: item,
        num,
        priority,
        latest_round: latest,
        value,
        power: if ok { combat_power(item) } else { 0 },
        per_gold: if ok { price } else { 1 },
        reason,
    }
}

/// Counts over our units the purchase plan reads.
pub struct Census {
    pub towers: i64,
    pub towers_l1: i64,
    pub towers_l2: i64,
    pub upgraded_towers: i64,
    pub walls: i64,
    pub walls_l1: i64,
    pub walls_l2: i64,
    pub damaged_walls: i64,
    pub critical_walls: i64,
    pub controllers: i64,
    pub injured: i64,
}

pub open spec fn count_where(s: Seq<Unit>, f: spec_fn(Unit) -> bool) -> int
    decreases s.len(),
{
    if s.len() == 0 { 0 } else { count_where(s.drop_last(), f) + if f(s.last()) { 1int } else { 0int } }
}

pub open spec fn live_wall_at(level: i32) -> spec_fn(Unit) -> bool {
    |u: Unit| crate::model::is_live_wall(u) && u.level == level
}

pub open spec fn tower_at(level: i32) -> spec_fn(Unit) -> bool {
    |u: Unit| is_live_tower(u) && u.level == level
}

pub open spec fn upgraded_tower() -> spec_fn(Unit) -> bool {
    |u: Unit| is_live_tower(u) && u.level >= 2
}

pub open spec fn damaged_wall() -> spec_fn(Unit) -> bool {
    |u: Unit| crate::model::is_live_wall(u) && u.health < crate::brain::combat::spec_wall_max_hp(u.level)
}

pub open spec fn critical_wall() -> spec_fn(Unit) -> bool {
    |u: Unit| crate::model::is_live_wall(u) && u.health * 2 < crate::brain::combat::spec_wall_max_hp(u.level)
}

pub open spec fn role_max_hp(u: Unit) -> int {
    if u.kind == UnitKind::Worker { 220 } else { 200 }
}

pub open spec fn injured_role() -> spec_fn(Unit) -> bool {
    |u: Unit| is_controllable(u) && u.health * 10 < role_max_hp(u) * 8
}

pub open spec fn census_of(s: Seq<Unit>) -> Census {
    Census {
        towers: count_where(s, |u: Unit| is_live_tower(u)) as i64,
        towers_l1: count_where(s, tower_at(1)) as i64,
        towers_l2: count_where(s, tower_at(2)) as i64,
        upgraded_towers: count_where(s, upgraded_tower()) as i64,
        walls: count_where(s, |u: Unit| crate::model::is_live_wall(u)) as i64,
        walls_l1: count_where(s, live_wall_at(1)) as i64,
        walls_l2: count_where(s, live_wall_at(2)) as i64,
        damaged_walls: count_where(s, damaged_wall()) as i64,
        critical_walls: count_where(s, critical_wall()) as i64,
        controllers: count_where(s, |u: Unit| is_controllable(u)) as i64,
        injured: count_where(s, injured_role()) as i64,
    }
}

pub proof fn lemma_count_step(s: Seq<Unit>, i: int, f: spec_fn(Unit) -> bool)
    requires
        0 <= i < s.len(),
    ensures
        count_where(s.take(i + 1), f) == count_where(s.take(i), f) + if f(s[i]) { 1int } else { 0int },
        0 <= count_where(s.take(i), f) <= i,
    decreases i,
{
    assert(s.take(i + 1).drop_last() =~= s.take(i));
    assert(s.take(i + 1).last() == s[i]);
    if i > 0 {
        lemma_count_step(s, i - 1, f);
    } else {
        assert(s.take(0).len() == 0);
    }
}

/// Count our units: towers by level, walls by level and damage, roles.
pub fn census(turn: &Turn) -> (c: Census)
    requires
        turn.wf(),
    ensures
        c == census_of(turn.ours@),
        0 <= c.towers <= 10_000,
        0 <= c.controllers <= 10_000,
        0 <= c.walls <= 10_000,
        0 <= c.damaged_walls <= 10_000,
        0 <= c.towers_l1 <= 10_000,
        0 <= c.towers_l2 <= 10_000,
        0 <= c.upgraded_towers <= 10_000,
        0 <= c.walls_l1 <= 10_000,
        0 <= c.walls_l2 <= 10_000,
        0 <= c.critical_walls <= 10_000,
        0 <= c.injured <= 10_000,
{
    let mut c = Census {
        towers: 0, towers_l1: 0, towers_l2: 0, upgraded_towers: 0, walls: 0, walls_l1: 0,
        walls_l2: 0, damaged_walls: 0, critical_walls: 0, controllers: 0, injured: 0,
    };
    let mut i: usize = 0;
    while i < turn.ours.len()
        invariant
            i <= turn.ours@.len(),
            turn.wf(),
            c == census_of(turn.ours@.take(i as int)),
            0 <= c.towers <= i,
            0 <= c.towers_l1 <= i,
            0 <= c.towers_l2 <= i,
            0 <= c.upgraded_towers <= i,
            0 <= c.walls <= i,
            0 <= c.walls_l1 <= i,
            0 <= c.walls_l2 <= i,
            0 <= c.damaged_walls <= i,
            0 <= c.critical_walls <= i,
            0 <= c.controllers <= i,
            0 <= c.injured <= i,
        decreases turn.ours@.len() - i,
    {
        proof {
            let s = turn.ours@;
            lemma_count_step(s, i as int, |u: Unit| is_live_tower(u));
            lemma_count_step(s, i as int, tower_at(1));
            lemma_count_step(s, i as int, tower_at(2));
            lemma_count_step(s, i as int, upgraded_tower());
            lemma_count_step(s, i as int, |u: Unit| crate::model::is_live_wall(u));
            lemma_count_step(s, i as int, live_wall_at(1));
            lemma_count_step(s, i as int, live_wall_at(2));
            lemma_count_step(s, i as int, damaged_wall());
            lemma_count_step(s, i as int, critical_wall());
            lemma_count_step(s, i as int, |u: Unit| is_controllable(u));
            lemma_count_step(s, i as int, injured_role());
        }
        let u = &turn.ours[i];
        assert(u.wf());
        let tower = u.kind.is_tower() && u.health > 0;
        let wall = u.kind == UnitKind::Wall && u.health > 0;
        let role = (u.kind == UnitKind::Worker || u.kind == UnitKind::Pioneer) && u.health > 0;
        if tower {
            c.towers = c.towers + 1;
            if u.level == 1 { c.towers_l1 = c.towers_l1 + 1; }
            if u.level == 2 { c.towers_l2 = c.towers_l2 + 1; }
            if u.level >= 2 { c.upgraded_towers = c.upgraded_towers + 1; }
        }
        if wall {
            c.walls = c.walls + 1;
            if u.level == 1 { c.walls_l1 = c.walls_l1 + 1; }
            if u.level == 2 { c.walls_l2 = c.walls_l2 + 1; }
            let max = crate::brain::combat::wall_max_hp(u.level);
            if u.health < max { c.damaged_walls = c.damaged_walls + 1; }
            if u.health * 2 < max { c.critical_walls = c.critical_walls + 1; }
        }
        if role {
            c.controllers = c.controllers + 1;
            let max_hp: i64 = if u.kind == UnitKind::Worker { 220 } else { 200 };
            if u.health * 10 < max_hp * 8 { c.injured = c.injured + 1; }
        }
        i += 1;
    }
    assert(turn.ours@.take(turn.ours@.len() as int) =~= turn.ours@);
    c
}

pub open spec fn latest_for(travel: int, margin: int) -> int {
    let l = DUSK_ROUND - 1 - travel - margin;
    if l > 0 { l } else { 0 }
}

pub open spec fn opt_need(b: bool, n: Need) -> Seq<Need> {
    if b { seq![n] } else { Seq::empty() }
}

/// 1. Weapon upgrade vouchers: one per level still to climb, first of all.
pub open spec fn weapon_part(turn: &Turn, c: Census, travel: int) -> Seq<Need> {
    let d1 = c.towers_l1 - team_count(turn.ours@, Item::WeaponUpgradeVoucher1);
    let d2 = c.towers_l2 - team_count(turn.ours@, Item::WeaponUpgradeVoucher2);
    opt_need(d1 > 0, spec_need(turn, Item::WeaponUpgradeVoucher1, 1, 0, latest_for(travel, 6), true, "upgrade"))
        + opt_need(d2 > 0, spec_need(turn, Item::WeaponUpgradeVoucher2, 1, 0, latest_for(travel, 6), true, "upgrade"))
}

/// 2. Wall upgrades, two per trip, once a ring stands and the weapon voucher
/// cannot be starved by them.
pub open spec fn wall_part(turn: &Turn, c: Census, travel: int) -> Seq<Need> {
    if c.walls >= 6 && (team_count(turn.ours@, Item::WeaponUpgradeVoucher1) > 0 || c.upgraded_towers == c.towers
        || turn.gold >= WEAPON_VOUCHER1_PRICE || turn.in_day_round >= latest_for(travel, 6)) {
        let w1 = if c.walls_l1 < 2 { c.walls_l1 as int } else { 2 };
        let w2 = if c.walls_l2 < 2 { c.walls_l2 as int } else { 2 };
        let h1 = team_count(turn.ours@, Item::WallUpgradeVoucher1);
        let h2 = team_count(turn.ours@, Item::WallUpgradeVoucher2);
        opt_need(w1 > h1, spec_need(turn, Item::WallUpgradeVoucher1, w1 - h1, 1, latest_for(travel, 4), true, "upgrade"))
            + opt_need(w2 > h2, spec_need(turn, Item::WallUpgradeVoucher2, w2 - h2, 1, latest_for(travel, 4), true, "upgrade"))
    } else {
        Seq::empty()
    }
}

/// 3. The station's next level, ranked by how far the guns already are.
pub open spec fn station_part(turn: &Turn, c: Census, travel: int) -> Seq<Need> {
    match turn.spec_station() {
        None => Seq::empty(),
        Some(st) => {
            if st.level != 1 && st.level != 2 {
                Seq::empty()
            } else {
                let v = if st.level == 1 { Item::StationUpgradeVoucher1 } else { Item::StationUpgradeVoucher2 };
                let prio = if c.towers >= 3 && c.upgraded_towers == c.towers { 0int } else if c.upgraded_towers > 0 { 1int } else { 2int };
                opt_need(team_count(turn.ours@, v) == 0, spec_need(turn, v, 1, prio, latest_for(travel, 6), true, "upgrade"))
            }
        },
    }
}

/// 4. Medicine: one per controller for an injured team, or before a later
/// night.
pub open spec fn medicine_part(turn: &Turn, c: Census, travel: int) -> Seq<Need> {
    let readiness = turn.in_day_round >= DUSK_ROUND - READINESS_LEAD;
    let per = if c.controllers > 1 { c.controllers as int } else { 1 };
    let want = if c.injured > 0 { per } else if turn.day > 1 && readiness { per } else { 0 };
    let have = team_count(turn.ours@, Item::Medicine);
    opt_need(have < want, spec_need(turn, Item::Medicine, want - have, 2, latest_for(travel, 1), false, "night_readiness"))
}

/// 5. Wall repair kits: for the damaged walls after day 1, else a small
/// pre-night stock once walls stand.
pub open spec fn fixer_part(turn: &Turn, state: &BotState, c: Census, travel: int) -> Seq<Need> {
    let readiness = turn.in_day_round >= DUSK_ROUND - READINESS_LEAD;
    let want = if c.damaged_walls > 0 && turn.day > 1 {
        if c.damaged_walls < 6 { c.damaged_walls as int } else { 6 }
    } else if readiness && c.walls > 0 {
        if state.ring_ever_complete { 4 } else { 2 }
    } else {
        0
    };
    let have = team_count(turn.ours@, Item::WallFixer);
    opt_need(have < want, spec_need(turn, Item::WallFixer, want - have, if c.critical_walls > 0 { 2 } else { 3 }, latest_for(travel, 0), false, "wall_repair"))
}

/// 6. Area items, once nothing is reserved for builds and gold is plentiful.
pub open spec fn item_part(turn: &Turn, reserve: int, travel: int) -> Seq<Need> {
    let g = turn.gold - reserve;
    let gold = if g > 0 { g } else { 0 };
    let bombs = team_count(turn.ours@, Item::Bomb);
    opt_need(reserve == 0 && bombs < 2 && gold >= 150, spec_need(turn, Item::Bomb, 2 - bombs, 4, latest_for(travel, 0), false, "night_item"))
        + opt_need(reserve == 0 && team_count(turn.ours@, Item::DizzyWeapon) < 1 && gold >= 150,
            spec_need(turn, Item::DizzyWeapon, 1, 4, latest_for(travel, 0), false, "night_item"))
}

/// 7-8. Harassment: a boss wave when rich and defended (earlier in the
/// suppression window), and a cheaper one against a thin enemy ring.
pub open spec fn harass_part(turn: &Turn, state: &BotState, c: Census, reserve: int) -> Seq<Need> {
    let g = turn.gold - reserve;
    let gold = if g > 0 { g } else { 0 };
    let h = state.coach.policy.harass;
    let supp = spec_boss_window(turn);
    let enemy_walls = count_where(turn.enemy@, |u: Unit| crate::model::is_live_wall(u));
    opt_need(h != crate::brain::coach::Harass::Off && gold >= 500 && c.towers >= 3 && (supp || !state.harass_done_today),
        spec_need(turn, Item::BossRobotSummonOrder, 1, if supp { 7 } else { 9 }, 0, false, if supp { "boss_suppression" } else { "harass" }))
        + opt_need(h != crate::brain::coach::Harass::Off && enemy_walls <= h.spec_thin_wall_limit() && c.towers >= 3 && gold >= 300
            && team_count(turn.ours@, Item::BossRobotSummonOrder) < h.spec_stock_cap() && !state.harass_done_today,
            spec_need(turn, Item::BossRobotSummonOrder, 1, 8, 0, false, "harass_finisher"))
}

pub open spec fn raw_intents(turn: &Turn, state: &BotState, reserve: int) -> Seq<Need> {
    let c = census_of(turn.ours@);
    let travel = spec_buyer_travel(turn);
    weapon_part(turn, c, travel) + wall_part(turn, c, travel) + station_part(turn, c, travel)
        + medicine_part(turn, c, travel) + fixer_part(turn, state, c, travel) + item_part(turn, reserve, travel)
        + harass_part(turn, state, c, reserve)
}


pub open spec fn is_station_voucher(i: Item) -> bool {
    i == Item::StationUpgradeVoucher1 || i == Item::StationUpgradeVoucher2
}

pub open spec fn demoted(n: Need) -> Need {
    if is_station_voucher(n.name) { Need { priority: 5, ..n } } else { n }
}

pub open spec fn not_boss() -> spec_fn(Need) -> bool {
    |n: Need| n.name != Item::BossRobotSummonOrder
}

/// The firepower-gap reorder: when the wave out-HPs the guns, no summons are
/// bought, and when one weapon step closes the gap (and the base is past
/// level 1 or already has its voucher) the station voucher drops behind.
pub open spec fn spec_clear_gap(drive: bool, turn: &Turn, needs: Seq<Need>) -> Seq<Need> {
    let gap = crate::brain::combat::spec_wave_hp(turn.day as int) - crate::brain::combat::fire_sum(turn.ours@, -1i64, 0);
    if !drive || gap <= 0 {
        needs
    } else {
        let step = match crate::brain::combat::best_gain(turn.ours@, turn.ours@) { Some(v) => v, None => 0 };
        let station_l1 = (turn.spec_station() matches Some(st) && st.level == 1)
            && team_count(turn.ours@, Item::StationUpgradeVoucher1) == 0;
        let n2 = if gap <= step && !station_l1 { needs.map_values(|n: Need| demoted(n)) } else { needs };
        n2.filter(not_boss())
    }
}

/// Apply the firepower-gap reorder to a purchase list when `drive` is on.
pub fn clear_gap_order_with(drive: bool, turn: &Turn, needs: &mut Vec<Need>)
    requires
        turn.wf(),
    ensures
        final(needs)@ == spec_clear_gap(drive, turn, old(needs)@),
{
    if !drive {
        return;
    }
    let gap = crate::brain::combat::firepower_gap(turn);
    if gap <= 0 {
        return;
    }
    let station_l1 = match turn.station() {
        Some(st) => st.level == 1,
        None => false,
    } && stock_of(turn, Item::StationUpgradeVoucher1) == 0;
    let demote = gap <= crate::brain::combat::best_weapon_step_gain(turn) && !station_l1;
    let ghost n0 = needs@;
    let ghost n2 = if demote { n0.map_values(|n: Need| demoted(n)) } else { n0 };
    let mut out: Vec<Need> = Vec::new();
    let mut i: usize = 0;
    while i < needs.len()
        invariant
            i <= needs@.len(),
            needs@ == n0,
            n2.len() == n0.len(),
            n2 == if demote { n0.map_values(|n: Need| demoted(n)) } else { n0 },
            out@ == n2.take(i as int).filter(not_boss()),
        decreases needs@.len() - i,
    {
        proof {
            crate::model::lemma_filter_step(n2, i as int, not_boss());
        }
        let mut n = needs[i];
        if demote && (n.name == Item::StationUpgradeVoucher1 || n.name == Item::StationUpgradeVoucher2) {
            n.priority = 5;
        }
        assert(n == n2[i as int]);
        if n.name != Item::BossRobotSummonOrder {
            out.push(n);
        }
        i += 1;
    }
    assert(n2.take(n2.len() as int) =~= n2);
    *needs = out;
}

fn push_if(v: &mut Vec<Need>, b: bool, n: Need)
    ensures
        final(v)@ == old(v)@ + opt_need(b, n),
{
    if b {
        v.push(n);
        assert(final(v)@ =~= old(v)@ + seq![n]);
    } else {
        assert(old(v)@ + Seq::<Need>::empty() =~= old(v)@);
    }
}

fn append_needs(v: &mut Vec<Need>, w: Vec<Need>)
    ensures
        final(v)@ == old(v)@ + w@,
{
    let mut i: usize = 0;
    while i < w.len()
        invariant
            i <= w@.len(),
            v@ == old(v)@ + w@.take(i as int),
        decreases w@.len() - i,
    {
        v.push(w[i]);
        assert(v@ =~= old(v)@ + w@.take(i as int + 1));
        i += 1;
    }
    assert(w@.take(w@.len() as int) =~= w@);
}

fn latest_round_for(travel: i64, margin: i64) -> (l: i64)
    requires
        0 <= travel <= 2_000_000,
        0 <= margin <= 10,
    ensures
        l == latest_for(travel as int, margin as int),
{
    if DUSK_ROUND - 1 - travel - margin > 0 { DUSK_ROUND - 1 - travel - margin } else { 0 }
}

fn weapon_needs(turn: &Turn, c: &Census, travel: i64) -> (v: Vec<Need>)
    requires
        turn.wf(),
        0 <= travel <= 2_000_000,
        0 <= c.towers_l1 <= 10_000,
        0 <= c.towers_l2 <= 10_000,
    ensures
        v@ == weapon_part(turn, *c, travel as int),
{
    let mut v: Vec<Need> = Vec::new();
    let l6 = latest_round_for(travel, 6);
    let v1 = stock_of(turn, Item::WeaponUpgradeVoucher1);
    let v2 = stock_of(turn, Item::WeaponUpgradeVoucher2);
    let n = make_need(turn, Item::WeaponUpgradeVoucher1, 1, 0, l6, true, "upgrade");
    push_if(&mut v, c.towers_l1 - v1 > 0, n);
    let n = make_need(turn, Item::WeaponUpgradeVoucher2, 1, 0, l6, true, "upgrade");
    push_if(&mut v, c.towers_l2 - v2 > 0, n);
    assert(v@ =~= weapon_part(turn, *c, travel as int));
    v
}

fn wall_needs(turn: &Turn, c: &Census, travel: i64) -> (v: Vec<Need>)
    requires
        turn.wf(),
        0 <= travel <= 2_000_000,
        0 <= c.walls_l1 <= 10_000,
        0 <= c.walls_l2 <= 10_000,
    ensures
        v@ == wall_part(turn, *c, travel as int),
{
    let mut v: Vec<Need> = Vec::new();
    let l6 = latest_round_for(travel, 6);
    let l4 = latest_round_for(travel, 4);
    if c.walls >= 6 && (stock_of(turn, Item::WeaponUpgradeVoucher1) > 0 || c.upgraded_towers == c.towers
        || turn.gold >= WEAPON_VOUCHER1_PRICE || turn.in_day_round >= l6) {
        let w1 = if c.walls_l1 < 2 { c.walls_l1 } else { 2 };
        let w2 = if c.walls_l2 < 2 { c.walls_l2 } else { 2 };
        let h1 = stock_of(turn, Item::WallUpgradeVoucher1);
        let h2 = stock_of(turn, Item::WallUpgradeVoucher2);
        let n = make_need(turn, Item::WallUpgradeVoucher1, w1 - h1, 1, l4, true, "upgrade");
        push_if(&mut v, w1 > h1, n);
        let n = make_need(turn, Item::WallUpgradeVoucher2, w2 - h2, 1, l4, true, "upgrade");
        push_if(&mut v, w2 > h2, n);
    }
    assert(v@ =~= wall_part(turn, *c, travel as int));
    v
}

fn station_needs(turn: &Turn, c: &Census, travel: i64) -> (v: Vec<Need>)
    requires
        turn.wf(),
        0 <= travel <= 2_000_000,
    ensures
        v@ == station_part(turn, *c, travel as int),
{
    let mut v: Vec<Need> = Vec::new();
    let l6 = latest_round_for(travel, 6);
    match turn.station() {
        Some(st) => {
            if st.level == 1 || st.level == 2 {
                let item = if st.level == 1 { Item::StationUpgradeVoucher1 } else { Item::StationUpgradeVoucher2 };
                let prio: i32 = if c.towers >= 3 && c.upgraded_towers == c.towers { 0 } else if c.upgraded_towers > 0 { 1 } else { 2 };
                let n = make_need(turn, item, 1, prio, l6, true, "upgrade");
                push_if(&mut v, stock_of(turn, item) == 0, n);
            }
        },
        None => {},
    }
    assert(v@ =~= station_part(turn, *c, travel as int));
    v
}

fn medicine_needs(turn: &Turn, c: &Census, travel: i64) -> (v: Vec<Need>)
    requires
        turn.wf(),
        0 <= travel <= 2_000_000,
        0 <= c.controllers <= 10_000,
    ensures
        v@ == medicine_part(turn, *c, travel as int),
{
    let mut v: Vec<Need> = Vec::new();
    let readiness = turn.in_day_round >= DUSK_ROUND - READINESS_LEAD;
    let per = if c.controllers > 1 { c.controllers } else { 1 };
    let want = if c.injured > 0 { per } else if turn.day > 1 && readiness { per } else { 0 };
    let have = stock_of(turn, Item::Medicine);
    let n = make_need(turn, Item::Medicine, want - have, 2, latest_round_for(travel, 1), false, "night_readiness");
    push_if(&mut v, have < want, n);
    assert(v@ =~= medicine_part(turn, *c, travel as int));
    v
}

fn fixer_needs(turn: &Turn, state: &BotState, c: &Census, travel: i64) -> (v: Vec<Need>)
    requires
        turn.wf(),
        0 <= travel <= 2_000_000,
        0 <= c.damaged_walls <= 10_000,
    ensures
        v@ == fixer_part(turn, state, *c, travel as int),
{
    let mut v: Vec<Need> = Vec::new();
    let readiness = turn.in_day_round >= DUSK_ROUND - READINESS_LEAD;
    let want = if c.damaged_walls > 0 && turn.day > 1 {
        if c.damaged_walls < 6 { c.damaged_walls } else { 6 }
    } else if readiness && c.walls > 0 {
        if state.ring_ever_complete { 4 } else { 2 }
    } else {
        0
    };
    let have = stock_of(turn, Item::WallFixer);
    let n = make_need(turn, Item::WallFixer, want - have, if c.critical_walls > 0 { 2 } else { 3 },
        latest_round_for(travel, 0), false, "wall_repair");
    push_if(&mut v, have < want, n);
    assert(v@ =~= fixer_part(turn, state, *c, travel as int));
    v
}

fn item_needs(turn: &Turn, reserve: i64, travel: i64) -> (v: Vec<Need>)
    requires
        turn.wf(),
        0 <= travel <= 2_000_000,
        0 <= reserve <= 1_000_000_000,
    ensures
        v@ == item_part(turn, reserve as int, travel as int),
{
    let mut v: Vec<Need> = Vec::new();
    let gold = if turn.gold - reserve > 0 { turn.gold - reserve } else { 0 };
    let l0 = latest_round_for(travel, 0);
    let bombs = stock_of(turn, Item::Bomb);
    let n = make_need(turn, Item::Bomb, 2 - bombs, 4, l0, false, "night_item");
    push_if(&mut v, reserve == 0 && bombs < 2 && gold >= 150, n);
    let dizzy = stock_of(turn, Item::DizzyWeapon);
    let n = make_need(turn, Item::DizzyWeapon, 1, 4, l0, false, "night_item");
    push_if(&mut v, reserve == 0 && dizzy < 1 && gold >= 150, n);
    assert(v@ =~= item_part(turn, reserve as int, travel as int));
    v
}

fn harass_needs(turn: &Turn, state: &BotState, c: &Census, reserve: i64) -> (v: Vec<Need>)
    requires
        turn.wf(),
        0 <= reserve <= 1_000_000_000,
    ensures
        v@ == harass_part(turn, state, *c, reserve as int),
{
    let mut v: Vec<Need> = Vec::new();
    let gold = if turn.gold - reserve > 0 { turn.gold - reserve } else { 0 };
    let h = state.coach.policy.harass;
    let supp = boss_suppression_window(turn);
    let enemy_walls = count_enemy_walls(turn);
    let n = make_need(turn, Item::BossRobotSummonOrder, 1, if supp { 7 } else { 9 }, 0, false,
        if supp { "boss_suppression" } else { "harass" });
    push_if(&mut v, h != crate::brain::coach::Harass::Off && gold >= 500 && c.towers >= 3 && (supp || !state.harass_done_today), n);
    let bosses = stock_of(turn, Item::BossRobotSummonOrder);
    let n = make_need(turn, Item::BossRobotSummonOrder, 1, 8, 0, false, "harass_finisher");
    push_if(&mut v, h != crate::brain::coach::Harass::Off && enemy_walls <= h.thin_wall_limit() as i64 && c.towers >= 3
        && gold >= 300 && bosses < h.stock_cap() && !state.harass_done_today, n);
    assert(v@ =~= harass_part(turn, state, *c, reserve as int));
    v
}

/// Everything we want to buy, with a deadline per item, affordable or not:
/// weapon vouchers, wall vouchers, the station voucher, medicine, wall
/// fixers, area items and summons, each under its own gate; then the
/// firepower-gap reorder when the coach has armed it.
pub fn intent_list(turn: &Turn, state: &BotState, reserve: i64) -> (needs: Vec<Need>)
    requires
        turn.wf(),
        state.wf(),
        0 <= reserve <= 1_000_000_000,
    ensures
        needs@ == spec_clear_gap(state.coach.policy.gap_funding, turn, raw_intents(turn, state, reserve as int)),
{
    let c = census(turn);
    let travel = buyer_shop_travel(turn);
    let mut needs = weapon_needs(turn, &c, travel);
    append_needs(&mut needs, wall_needs(turn, &c, travel));
    append_needs(&mut needs, station_needs(turn, &c, travel));
    append_needs(&mut needs, medicine_needs(turn, &c, travel));
    append_needs(&mut needs, fixer_needs(turn, state, &c, travel));
    append_needs(&mut needs, item_needs(turn, reserve, travel));
    append_needs(&mut needs, harass_needs(turn, state, &c, reserve));
    clear_gap_order_with(state.coach.policy.gap_funding, turn, &mut needs);
    needs
}

fn count_enemy_walls(turn: &Turn) -> (n: i64)
    requires
        turn.wf(),
    ensures
        n == count_where(turn.enemy@, |u: Unit| crate::model::is_live_wall(u)),
        0 <= n <= 10_000,
{
    let mut n: i64 = 0;
    let mut i: usize = 0;
    while i < turn.enemy.len()
        invariant
            i <= turn.enemy@.len(),
            turn.wf(),
            n == count_where(turn.enemy@.take(i as int), |u: Unit| crate::model::is_live_wall(u)),
            0 <= n <= i,
        decreases turn.enemy@.len() - i,
    {
        proof {
            lemma_count_step(turn.enemy@, i as int, |u: Unit| crate::model::is_live_wall(u));
        }
        if turn.enemy[i].kind == UnitKind::Wall && turn.enemy[i].health > 0 {
            n = n + 1;
        }
        i += 1;
    }
    assert(turn.enemy@.take(turn.enemy@.len() as int) =~= turn.enemy@);
    n
}


// ---------------------------------------------------------------------------
// What the purse buys now
// ---------------------------------------------------------------------------

pub open spec fn is_upgrade(i: Item) -> bool {
    i == Item::WeaponUpgradeVoucher1 || i == Item::WeaponUpgradeVoucher2 || i == Item::StationUpgradeVoucher1
        || i == Item::StationUpgradeVoucher2 || i == Item::WallUpgradeVoucher1 || i == Item::WallUpgradeVoucher2
}

pub open spec fn is_wall_voucher(i: Item) -> bool {
    i == Item::WallUpgradeVoucher1 || i == Item::WallUpgradeVoucher2
}

pub open spec fn is_night_readiness(i: Item) -> bool {
    i == Item::Medicine || i == Item::WallFixer
}

/// Combat per gold of `a` is strictly above that of `b`.
pub open spec fn cpg_gt(a: Need, b: Need) -> bool {
    a.power * b.per_gold > b.power * a.per_gold
}

pub open spec fn cpg_eq(a: Need, b: Need) -> bool {
    a.power * b.per_gold == b.power * a.per_gold
}

/// `a` is bought before `b`: in the dusk cash-out by combat per gold, then
/// priority, then value; otherwise by priority, then value.
pub open spec fn buys_first(cashout: bool, a: Need, b: Need) -> bool {
    if cashout {
        cpg_gt(a, b) || (cpg_eq(a, b) && (a.priority < b.priority || (a.priority == b.priority && a.value > b.value)))
    } else {
        a.priority < b.priority || (a.priority == b.priority && a.value > b.value)
    }
}

/// Index of the need a stable sort puts first.
pub open spec fn first_need(cashout: bool, s: Seq<Need>) -> int
    decreases s.len(),
{
    if s.len() <= 1 {
        0
    } else {
        let b = first_need(cashout, s.drop_last());
        if buys_first(cashout, s.last(), s[b]) { s.len() - 1 } else { b }
    }
}

pub proof fn lemma_first_need_in(cashout: bool, s: Seq<Need>)
    ensures
        s.len() > 0 ==> 0 <= first_need(cashout, s) < s.len(),
    decreases s.len(),
{
    if s.len() > 1 {
        lemma_first_need_in(cashout, s.drop_last());
    }
}

/// The gates the shopping walk applies.
#[derive(Clone, Copy)]
pub struct ShopGates {
    pub cashout: bool,
    pub urgent: bool,
    pub voucher_pending: bool,
    pub voucher_floor: i64,
    pub station_fund_guard: bool,
    pub reserve: i64,
}

pub open spec fn shop_gates(turn: &Turn, reserve: int) -> ShopGates {
    let c = census_of(turn.ours@);
    let cashout = turn.in_day_round >= DUSK_ROUND - 10;
    let weapon = cashout && c.upgraded_towers < c.towers
        && team_count(turn.ours@, Item::WeaponUpgradeVoucher1) == 0 && team_count(turn.ours@, Item::WeaponUpgradeVoucher2) == 0;
    let wall = cashout && c.walls >= 6
        && (team_count(turn.ours@, Item::WallUpgradeVoucher1) == 0 || team_count(turn.ours@, Item::WallUpgradeVoucher2) == 0)
        && count_where(turn.ours@, low_wall()) > 0;
    let station = cashout && (turn.spec_station() matches Some(st) && st.level < 3)
        && (team_count(turn.ours@, Item::StationUpgradeVoucher1) == 0 || team_count(turn.ours@, Item::StationUpgradeVoucher2) == 0);
    let price_or = |i: Item, d: int| match price_in(turn.weapon_shop@, i) { Some(p) => p as int, None => d };
    ShopGates {
        cashout,
        urgent: turn.in_day_round >= DUSK_ROUND - 10,
        voucher_pending: weapon || wall || station,
        voucher_floor: (if weapon { price_or(Item::WeaponUpgradeVoucher1, 100) } else if wall { price_or(Item::WallUpgradeVoucher1, 20) }
            else if station { price_or(Item::StationUpgradeVoucher1, 100) } else { 0 }) as i64,
        station_fund_guard: turn.day == 1 && (turn.spec_station() matches Some(st) && st.level == 1)
            && team_count(turn.ours@, Item::StationUpgradeVoucher1) == 0,
        reserve: reserve as i64,
    }
}

pub open spec fn low_wall() -> spec_fn(Unit) -> bool {
    |u: Unit| crate::model::is_live_wall(u) && u.level < 2
}

/// How many of `n` the walk buys with `remaining` gold, if any.
pub open spec fn buy_count(turn: &Turn, g: ShopGates, n: Need, remaining: int) -> int {
    let price = shop_price(turn, n.name);
    if n.num <= 0 || !priced_ok(price) {
        0
    } else if g.voucher_pending && is_night_readiness(n.name) && remaining - price * n.num < g.voucher_floor && remaining < g.voucher_floor {
        0
    } else {
        let wall_voucher = is_wall_voucher(n.name);
        let floor = if (is_upgrade(n.name) && !wall_voucher) || (g.urgent && is_night_readiness(n.name) && !g.station_fund_guard)
            || (g.cashout && n.power > 0 && !wall_voucher) { 0 } else { g.reserve as int };
        let room = if remaining - floor > 0 { remaining - floor } else { 0 };
        let affordable = room / price;
        if n.num < affordable { n.num as int } else { affordable }
    }
}

/// Outside the urgent window and the dusk cash-out, a need that is not a
/// weapon or station upgrade voucher is bought only out of the gold above
/// the reserve: what it costs, with the reserve, never exceeds the purse.
/// And it buys as many as that room allows, up to the need.
pub proof fn law_purchases_keep_the_reserve(turn: &Turn, g: ShopGates, n: Need, remaining: int)
    requires
        !g.cashout,
        !g.urgent,
        !is_upgrade(n.name) || is_wall_voucher(n.name),
        g.reserve >= 0,
    ensures
        buy_count(turn, g, n, remaining) >= 0,
        buy_count(turn, g, n, remaining) > 0 ==>
            buy_count(turn, g, n, remaining) * shop_price(turn, n.name) + g.reserve <= remaining,
        buy_count(turn, g, n, remaining) <= if n.num > 0 { n.num as int } else { 0 },
        (n.num > 0 && priced_ok(shop_price(turn, n.name)) && !g.voucher_pending
            && buy_count(turn, g, n, remaining) < n.num)
            ==> (buy_count(turn, g, n, remaining) + 1) * shop_price(turn, n.name) + g.reserve > remaining,
{
    let price = shop_price(turn, n.name);
    if n.num > 0 && priced_ok(price) {
        let room = if remaining - g.reserve > 0 { remaining - g.reserve } else { 0 };
        let a = room / price;
        assert(a * price <= room && room < (a + 1) * price && a >= 0) by (nonlinear_arith)
            requires price > 0, room >= 0, a == room / price;
        let k = if n.num < a { n.num as int } else { a };
        assert(k * price <= a * price) by (nonlinear_arith)
            requires k <= a, price > 0;
        assert((k + 1) * price <= (a + 1) * price || k == a) by (nonlinear_arith)
            requires k <= a, price > 0;
    }
}

/// The walk down the ordered list: each need bought as far as the purse
/// (above its floor) allows.
pub open spec fn shop_run(turn: &Turn, g: ShopGates, rest: Seq<Need>, remaining: int, out: Seq<Need>) -> Seq<Need>
    decreases rest.len(),
{
    if rest.len() == 0 {
        out
    } else {
        let i = first_need(g.cashout, rest);
        proof {
            lemma_first_need_in(g.cashout, rest);
        }
        let n = rest[i];
        let k = buy_count(turn, g, n, remaining);
        if k <= 0 {
            shop_run(turn, g, rest.remove(i), remaining, out)
        } else {
            shop_run(turn, g, rest.remove(i), remaining - shop_price(turn, n.name) * k, out.push(Need { num: k as i64, ..n }))
        }
    }
}

pub open spec fn spec_shopping_list(turn: &Turn, state: &BotState, reserve: int) -> Seq<Need> {
    let intents = spec_clear_gap(state.coach.policy.gap_funding, turn, raw_intents(turn, state, reserve));
    shop_run(turn, shop_gates(turn, reserve), intents, turn.gold as int, Seq::empty())
}

fn gates(turn: &Turn, reserve: i64) -> (g: ShopGates)
    requires
        turn.wf(),
        0 <= reserve <= 1_000_000_000,
    ensures
        g == shop_gates(turn, reserve as int),
        -1_000_000 <= g.voucher_floor <= 1_000_000,
{
    let c = census(turn);
    let cashout = turn.in_day_round >= DUSK_ROUND - 10;
    let weapon = cashout && c.upgraded_towers < c.towers
        && stock_of(turn, Item::WeaponUpgradeVoucher1) == 0 && stock_of(turn, Item::WeaponUpgradeVoucher2) == 0;
    let low_walls = count_low_walls(turn);
    let wall = cashout && c.walls >= 6
        && (stock_of(turn, Item::WallUpgradeVoucher1) == 0 || stock_of(turn, Item::WallUpgradeVoucher2) == 0)
        && low_walls > 0;
    let station_low = match turn.station() {
        Some(st) => st.level < 3,
        None => false,
    };
    let station = cashout && station_low
        && (stock_of(turn, Item::StationUpgradeVoucher1) == 0 || stock_of(turn, Item::StationUpgradeVoucher2) == 0);
    proof {
        crate::model::lemma_price_in_bounds(turn.weapon_shop@, Item::WeaponUpgradeVoucher1);
        crate::model::lemma_price_in_bounds(turn.weapon_shop@, Item::WallUpgradeVoucher1);
        crate::model::lemma_price_in_bounds(turn.weapon_shop@, Item::StationUpgradeVoucher1);
    }
    let floor = if weapon {
        match crate::model::price_of(&turn.weapon_shop, Item::WeaponUpgradeVoucher1) { Some(p) => p, None => 100 }
    } else if wall {
        match crate::model::price_of(&turn.weapon_shop, Item::WallUpgradeVoucher1) { Some(p) => p, None => 20 }
    } else if station {
        match crate::model::price_of(&turn.weapon_shop, Item::StationUpgradeVoucher1) { Some(p) => p, None => 100 }
    } else {
        0
    };
    let station_l1 = match turn.station() {
        Some(st) => st.level == 1,
        None => false,
    };
    ShopGates {
        cashout,
        urgent: turn.in_day_round >= DUSK_ROUND - 10,
        voucher_pending: weapon || wall || station,
        voucher_floor: floor,
        station_fund_guard: turn.day == 1 && station_l1 && stock_of(turn, Item::StationUpgradeVoucher1) == 0,
        reserve,
    }
}

fn count_low_walls(turn: &Turn) -> (n: i64)
    requires
        turn.wf(),
    ensures
        n == count_where(turn.ours@, low_wall()),
        0 <= n <= 10_000,
{
    let mut n: i64 = 0;
    let mut i: usize = 0;
    while i < turn.ours.len()
        invariant
            i <= turn.ours@.len(),
            turn.wf(),
            n == count_where(turn.ours@.take(i as int), low_wall()),
            0 <= n <= i,
        decreases turn.ours@.len() - i,
    {
        proof {
            lemma_count_step(turn.ours@, i as int, low_wall());
        }
        if turn.ours[i].kind == UnitKind::Wall && turn.ours[i].health > 0 && turn.ours[i].level < 2 {
            n = n + 1;
        }
        i += 1;
    }
    assert(turn.ours@.take(turn.ours@.len() as int) =~= turn.ours@);
    n
}

proof fn lemma_i64_product(x: i64, y: i64)
    ensures
        -0x4000_0000_0000_0000_0000_0000_0000_0000 <= x * y <= 0x4000_0000_0000_0000_0000_0000_0000_0000,
{
    assert(-0x4000_0000_0000_0000_0000_0000_0000_0000 <= x * y <= 0x4000_0000_0000_0000_0000_0000_0000_0000)
        by (nonlinear_arith)
        requires
            -0x8000_0000_0000_0000 <= x <= 0x7fff_ffff_ffff_ffff,
            -0x8000_0000_0000_0000 <= y <= 0x7fff_ffff_ffff_ffff;
}

fn pick_need(cashout: bool, v: &Vec<Need>) -> (i: usize)
    requires
        v@.len() > 0,
    ensures
        i as int == first_need(cashout, v@),
        i < v@.len(),
{
    let mut b: usize = 0;
    let mut k: usize = 1;
    while k < v.len()
        invariant
            1 <= k <= v@.len(),
            b < k,
            b as int == first_need(cashout, v@.take(k as int)),
        decreases v@.len() - k,
    {
        assert(v@.take(k as int + 1).drop_last() =~= v@.take(k as int));
        assert(v@.take(k as int + 1).last() == v@[k as int]);
        assert(v@.take(k as int + 1)[b as int] == v@[b as int]);
        let a = v[k];
        let c = v[b];
        proof {
            lemma_i64_product(a.power, c.per_gold);
            lemma_i64_product(c.power, a.per_gold);
        }
        let x: i128 = a.power as i128 * c.per_gold as i128;
        let y: i128 = c.power as i128 * a.per_gold as i128;
        let first = if cashout {
            x > y || (x == y && (a.priority < c.priority || (a.priority == c.priority && a.value > c.value)))
        } else {
            a.priority < c.priority || (a.priority == c.priority && a.value > c.value)
        };
        if first {
            b = k;
        }
        k += 1;
    }
    assert(v@.take(v@.len() as int) =~= v@);
    b
}

fn buy_count_of(turn: &Turn, g: &ShopGates, n: &Need, remaining: i64) -> (k: i64)
    requires
        turn.wf(),
        0 <= g.reserve <= 1_000_000_000,
    ensures
        k == buy_count(turn, *g, *n, remaining as int),
        k > 0 ==> shop_price(turn, n.name) * k <= (if remaining > 0 { remaining as int } else { 0 }),
        k > 0 ==> priced_ok(shop_price(turn, n.name)) && 1 <= shop_price(turn, n.name) <= 1_000_000,
        k >= 0,
{
    let price = shop_price_of(turn, n.name);
    if n.num <= 0 || !(price > 0 && price != i64::MAX) {
        return 0;
    }
    proof {
        lemma_i64_product(price, n.num);
    }
    let after: i128 = remaining as i128 - price as i128 * n.num as i128;
    if g.voucher_pending && (n.name == Item::Medicine || n.name == Item::WallFixer)
        && after < g.voucher_floor as i128 && remaining < g.voucher_floor {
        return 0;
    }
    let wall_voucher = n.name == Item::WallUpgradeVoucher1 || n.name == Item::WallUpgradeVoucher2;
    let upgrade = n.name == Item::WeaponUpgradeVoucher1 || n.name == Item::WeaponUpgradeVoucher2
        || n.name == Item::StationUpgradeVoucher1 || n.name == Item::StationUpgradeVoucher2 || wall_voucher;
    let ready = n.name == Item::Medicine || n.name == Item::WallFixer;
    let floor: i64 = if (upgrade && !wall_voucher) || (g.urgent && ready && !g.station_fund_guard)
        || (g.cashout && n.power > 0 && !wall_voucher) { 0 } else { g.reserve };
    let room: i64 = if remaining as i128 - floor as i128 > 0 { remaining - floor } else { 0 };
    let affordable = room / price;
    assert(price * affordable <= room) by (nonlinear_arith)
        requires price >= 1, room >= 0, affordable == room as int / price as int;
    assert(affordable >= 0) by (nonlinear_arith)
        requires price >= 1, room >= 0, affordable == room as int / price as int;
    if n.num < affordable {
        assert(price * n.num <= price * affordable) by (nonlinear_arith)
            requires price >= 1, n.num < affordable;
        n.num
    } else {
        affordable
    }
}

/// The affordable part of the intent list, in purchase order: by priority
/// (in the dusk cash-out by combat per gold first); vouchers may spend the
/// whole purse, consumables leave the build reserve untouched unless the
/// night is close; while an upgrade voucher is pending at dusk, consumables
/// may not drain the purse below its price. A need that only partly fits is
/// bought partly.
pub fn shopping_list(turn: &Turn, state: &BotState, reserve: i64) -> (out: Vec<Need>)
    requires
        turn.wf(),
        state.wf(),
        0 <= reserve <= 1_000_000_000,
    ensures
        out@ == spec_shopping_list(turn, state, reserve as int),
{
    let mut intents = intent_list(turn, state, reserve);
    let g = gates(turn, reserve);
    let mut remaining = turn.gold;
    let mut out: Vec<Need> = Vec::new();
    let ghost all = intents@;
    while intents.len() > 0
        invariant
            turn.wf(),
            g == shop_gates(turn, reserve as int),
            0 <= g.reserve <= 1_000_000_000,
            -1_000_000_000 <= remaining <= 1_000_000_000,
            shop_run(turn, g, all, turn.gold as int, Seq::empty()) == shop_run(turn, g, intents@, remaining as int, out@),
        decreases intents@.len(),
    {
        let i = pick_need(g.cashout, &intents);
        let ghost before = intents@;
        let n = intents.remove(i);
        assert(intents@ =~= before.remove(i as int));
        assert(n == before[i as int]);
        proof {
            lemma_first_need_in(g.cashout, before);
        }
        let k = buy_count_of(turn, &g, &n, remaining);
        if k > 0 {
            let price = shop_price_of(turn, n.name);
            remaining = remaining - price * k;
            out.push(Need { num: k, ..n });
        }
    }
    out
}

/// The day's purchase plan: what the team wants (with deadlines) and what it
/// can afford now.
#[derive(Debug)]
pub struct Budget {
    pub intent: Vec<Need>,
    pub shopping: Vec<Need>,
    pub reserve: i64,
}

/// The day's purchase plan for a gold `reserve`.
pub fn budget(turn: &Turn, state: &BotState, reserve: i64) -> (b: Budget)
    requires
        turn.wf(),
        state.wf(),
        0 <= reserve <= 1_000_000_000,
    ensures
        b.intent@ == spec_clear_gap(state.coach.policy.gap_funding, turn, raw_intents(turn, state, reserve as int)),
        b.shopping@ == spec_shopping_list(turn, state, reserve as int),
        b.reserve == reserve,
{
    Budget {
        intent: intent_list(turn, state, reserve),
        shopping: shopping_list(turn, state, reserve),
        reserve,
    }
}

// ---------------------------------------------------------------------------
// Mining picks
// ---------------------------------------------------------------------------

pub proof fn lemma_mine_list_inner(s: Seq<Zone>)
    requires
        crate::model::zones_wf(s),
    ensures
        forall|k: int| 0 <= k < mine_list(s).len() ==> pos_inner(#[trigger] mine_list(s)[k].0),
    decreases s.len(),
{
    if s.len() > 0 {
        assert(crate::model::zones_wf(s.drop_last())) by {
            assert forall|i: int| 0 <= i < s.drop_last().len() implies pos_inner((#[trigger] s.drop_last()[i]).pos) by {
                assert(s.drop_last()[i] == s[i]);
            }
        }
        lemma_mine_list_inner(s.drop_last());
        assert(pos_inner(s[s.len() - 1].pos));
        let a = mine_list(s.drop_last());
        let m = mine_list(s);
        assert forall|k: int| 0 <= k < m.len() implies pos_inner(#[trigger] m[k].0) by {
            if k < a.len() {
                assert(m[k] == a[k]);
            }
        }
    }
}

/// Gold per round of a trip, as a fraction: `price × free / rounds`, and
/// zero for a trip of no rounds or a pack with no room.
pub open spec fn roi_frac(price: int, trip: int, free: int) -> (int, int) {
    if trip <= 0 || free <= 0 { (0, 1) } else { (price * free, trip) }
}

pub open spec fn roi_gt(pa: int, ta: int, pb: int, tb: int, free: int) -> bool {
    let a = roi_frac(pa, ta, free);
    let b = roi_frac(pb, tb, free);
    a.0 * b.1 > b.0 * a.1
}

pub open spec fn roi_eq(pa: int, ta: int, pb: int, tb: int, free: int) -> bool {
    let a = roi_frac(pa, ta, free);
    let b = roi_frac(pb, tb, free);
    a.0 * b.1 == b.0 * a.1
}

proof fn lemma_roi_bounds(p: int, t: int, free: int)
    requires
        -2_000_000 <= p <= 2_000_000,
        0 <= t <= 4_000_001,
        0 <= free <= 1_000_000,
    ensures
        -2_000_000_000_000 <= roi_frac(p, t, free).0 <= 2_000_000_000_000,
        1 <= roi_frac(p, t, free).1 <= 4_000_001,
{
    if t > 0 && free > 0 {
        assert(-2_000_000_000_000 <= p * free <= 2_000_000_000_000) by (nonlinear_arith)
            requires -2_000_000 <= p <= 2_000_000, 0 <= free <= 1_000_000;
    }
}

proof fn lemma_cross_bounds(an: int, ad: int, bn: int, bd: int)
    requires
        -2_000_000_000_000 <= an <= 2_000_000_000_000,
        -2_000_000_000_000 <= bn <= 2_000_000_000_000,
        1 <= ad <= 4_000_001,
        1 <= bd <= 4_000_001,
    ensures
        -10_000_000_000_000_000_000 <= an * bd <= 10_000_000_000_000_000_000,
        -10_000_000_000_000_000_000 <= bn * ad <= 10_000_000_000_000_000_000,
{
    assert(-10_000_000_000_000_000_000 <= an * bd <= 10_000_000_000_000_000_000) by (nonlinear_arith)
        requires -2_000_000_000_000 <= an <= 2_000_000_000_000, 1 <= bd <= 4_000_001;
    assert(-10_000_000_000_000_000_000 <= bn * ad <= 10_000_000_000_000_000_000) by (nonlinear_arith)
        requires -2_000_000_000_000 <= bn <= 2_000_000_000_000, 1 <= ad <= 4_000_001;
}

fn roi_parts(p: i64, t: i64, free: i64) -> (r: (i128, i128))
    requires
        -2_000_000 <= p <= 2_000_000,
        0 <= t <= 4_000_001,
        0 <= free <= 1_000_000,
    ensures
        r.0 as int == roi_frac(p as int, t as int, free as int).0,
        r.1 as int == roi_frac(p as int, t as int, free as int).1,
        -2_000_000_000_000 <= r.0 <= 2_000_000_000_000,
        1 <= r.1 <= 4_000_001,
{
    proof {
        lemma_roi_bounds(p as int, t as int, free as int);
    }
    if t <= 0 || free <= 0 {
        (0, 1)
    } else {
        (p as i128 * free as i128, t as i128)
    }
}

/// Compare two trips' gold per round: 1 when `a` pays more, 0 when equal,
/// -1 when less.
fn roi_compare(pa: i64, ta: i64, pb: i64, tb: i64, free: i64) -> (c: i8)
    requires
        -2_000_000 <= pa <= 2_000_000,
        -2_000_000 <= pb <= 2_000_000,
        0 <= ta <= 4_000_001,
        0 <= tb <= 4_000_001,
        0 <= free <= 1_000_000,
    ensures
        c == 1 <==> roi_gt(pa as int, ta as int, pb as int, tb as int, free as int),
        c == 0 <==> roi_eq(pa as int, ta as int, pb as int, tb as int, free as int),
        c == -1 <==> roi_gt(pb as int, tb as int, pa as int, ta as int, free as int),
{
    let a = roi_parts(pa, ta, free);
    let b = roi_parts(pb, tb, free);
    proof {
        lemma_cross_bounds(a.0 as int, a.1 as int, b.0 as int, b.1 as int);
    }
    let x = a.0 * b.1;
    let y = b.0 * a.1;
    if x > y { 1 } else if x == y { 0 } else { -1 }
}

/// Rounds of the ring-aware walk from the role to `p`.
pub open spec fn walk_of(turn: &Turn, role: Unit, p: Pos) -> int {
    spec_trip_rounds(turn, role.pos, p)
}

/// A vein still worth considering: its ore not off the list today, its cell
/// not claimed by a teammate.
pub open spec fn mine_open(turn: &Turn, state: &BotState, claimed: Seq<Pos>) -> spec_fn((Pos, Item)) -> bool {
    |m: (Pos, Item)| !on_outage(state.outages@, m.1, turn.day) && !claimed.contains(m.0)
}

/// The walking budget the afternoon leaves a trip.
pub open spec fn day_budget(turn: &Turn) -> int {
    (if DUSK_ROUND - turn.in_day_round > 0 { DUSK_ROUND - turn.in_day_round } else { 0 }) - DUSK_TRIP_MARGIN
}

pub open spec fn in_budget(turn: &Turn, role: Unit) -> spec_fn((Pos, Item)) -> bool {
    |m: (Pos, Item)| day_budget(turn) <= 0 || walk_of(turn, role, m.0) <= day_budget(turn)
}

/// `a` is strictly nearer than `b` by (walk, x, y).
pub open spec fn nearer(turn: &Turn, role: Unit, a: Pos, b: Pos) -> bool {
    let wa = walk_of(turn, role, a);
    let wb = walk_of(turn, role, b);
    wa < wb || (wa == wb && (a.x < b.x || (a.x == b.x && a.y < b.y)))
}

/// The nearest stone vein of `s`, the first on ties.
pub open spec fn nearest_stone(turn: &Turn, role: Unit, s: Seq<(Pos, Item)>) -> Option<(Pos, Item)>
    decreases s.len(),
{
    if s.len() == 0 {
        None
    } else {
        let r = nearest_stone(turn, role, s.drop_last());
        let m = s.last();
        if m.1 != STONE {
            r
        } else {
            match r {
                None => Some(m),
                Some(b) => if nearer(turn, role, m.0, b.0) { Some(m) } else { r },
            }
        }
    }
}

/// `a` outranks `b` for the ROI pick: more gold per round, then the shorter
/// walk, then the larger x, then the larger y.
pub open spec fn mine_gt(turn: &Turn, state: &BotState, role: Unit, a: (Pos, Item), b: (Pos, Item)) -> bool {
    let free = if role.capacity - role.backpack@.len() > 0 { role.capacity - role.backpack@.len() } else { 0 };
    let wa = walk_of(turn, role, a.0);
    let wb = walk_of(turn, role, b.0);
    let pa = spec_priced(turn, state, a.1);
    let pb = spec_priced(turn, state, b.1);
    ||| roi_gt(pa, wa, pb, wb, free)
    ||| roi_eq(pa, wa, pb, wb, free) && (wa < wb || (wa == wb && (a.0.x > b.0.x || (a.0.x == b.0.x && a.0.y > b.0.y))))
}

/// The best vein of `s` by the ROI order, the last of equals.
pub open spec fn best_mine(turn: &Turn, state: &BotState, role: Unit, s: Seq<(Pos, Item)>) -> Option<(Pos, Item)>
    decreases s.len(),
{
    if s.len() == 0 {
        None
    } else {
        match best_mine(turn, state, role, s.drop_last()) {
            None => Some(s.last()),
            Some(b) => if mine_gt(turn, state, role, b, s.last()) { Some(b) } else { Some(s.last()) },
        }
    }
}

pub open spec fn spec_choose_mine(turn: &Turn, state: &BotState, role: Unit, stone_demand: int, claimed: Seq<Pos>)
    -> Option<(Pos, Item)> {
    let options = mine_list(turn.zones@).filter(mine_open(turn, state, claimed));
    if options.len() == 0 {
        None
    } else if stone_demand > 0 && nearest_stone(turn, role, options) is Some {
        nearest_stone(turn, role, options)
    } else {
        let within = options.filter(in_budget(turn, role));
        if within.len() == 0 { None } else { best_mine(turn, state, role, within) }
    }
}

fn open_mines(turn: &Turn, state: &BotState, claimed: &[Pos]) -> (r: Vec<(Pos, Item)>)
    requires
        turn.wf(),
    ensures
        r@ == mine_list(turn.zones@).filter(mine_open(turn, state, claimed@)),
        forall|k: int| 0 <= k < r@.len() ==> pos_inner(#[trigger] r@[k].0),
{
    let all = turn.all_mines();
    proof {
        lemma_mine_list_inner(turn.zones@);
    }
    let ghost pred = mine_open(turn, state, claimed@);
    let mut out: Vec<(Pos, Item)> = Vec::new();
    let mut i: usize = 0;
    while i < all.len()
        invariant
            i <= all@.len(),
            all@ == mine_list(turn.zones@),
            forall|k: int| 0 <= k < all@.len() ==> pos_inner(#[trigger] all@[k].0),
            pred == mine_open(turn, state, claimed@),
            out@ == all@.take(i as int).filter(pred),
            forall|k: int| 0 <= k < out@.len() ==> pos_inner(#[trigger] out@[k].0),
        decreases all@.len() - i,
    {
        proof {
            crate::model::lemma_filter_step(all@, i as int, pred);
        }
        let (pos, ore) = all[i];
        if !state.ore_on_outage(ore, turn.day) && !crate::model::contains_pos(claimed, pos) {
            out.push((pos, ore));
        }
        i += 1;
    }
    assert(all@.take(all@.len() as int) =~= all@);
    out
}

/// Pick the vein for this worker: the nearest stone vein while the wall
/// line still owes stone; otherwise, among the veins a trip can reach before
/// dusk, the best gold per round (ties to the shorter walk). Veins of an ore
/// off the list today and claimed veins are never picked.
pub fn choose_mine(turn: &Turn, state: &BotState, role: &Unit, stone_demand: i64, claimed: &[Pos])
    -> (r: Option<(Pos, Item)>)
    requires
        turn.wf(),
        state.wf(),
        role.wf(),
    ensures
        r == spec_choose_mine(turn, state, *role, stone_demand as int, claimed@),
        r matches Some(m) ==> pos_inner(m.0),
{
    let options = open_mines(turn, state, claimed);
    if options.len() == 0 {
        return None;
    }
    if stone_demand > 0 {
        let mut best: Option<(Pos, Item)> = None;
        let mut best_walk: i64 = 0;
        let mut i: usize = 0;
        while i < options.len()
            invariant
                i <= options@.len(),
                turn.wf(),
                role.wf(),
                forall|k: int| 0 <= k < options@.len() ==> pos_inner(#[trigger] options@[k].0),
                best == nearest_stone(turn, *role, options@.take(i as int)),
                best matches Some(b) ==> best_walk == walk_of(turn, *role, b.0) && pos_inner(b.0),
            decreases options@.len() - i,
        {
            assert(options@.take(i as int + 1).drop_last() =~= options@.take(i as int));
            assert(options@.take(i as int + 1).last() == options@[i as int]);
            let (pos, ore) = options[i];
            assert(pos_inner(options@[i as int].0));
            if ore == STONE {
                let w = trip_rounds(turn, role.pos, pos);
                let replace = match best {
                    None => true,
                    Some((b, _)) => w < best_walk || (w == best_walk && (pos.x < b.x || (pos.x == b.x && pos.y < b.y))),
                };
                if replace {
                    best = Some((pos, ore));
                    best_walk = w;
                }
            }
            i += 1;
        }
        assert(options@.take(options@.len() as int) =~= options@);
        if best.is_some() {
            return best;
        }
    }
    let left = DUSK_ROUND - turn.in_day_round;
    let budget = (if left > 0 { left } else { 0 }) - DUSK_TRIP_MARGIN;
    let ghost pred = in_budget(turn, *role);
    let mut within: Vec<(Pos, Item)> = Vec::new();
    let mut i: usize = 0;
    while i < options.len()
        invariant
            i <= options@.len(),
            turn.wf(),
            role.wf(),
            budget == day_budget(turn),
            pred == in_budget(turn, *role),
            forall|k: int| 0 <= k < options@.len() ==> pos_inner(#[trigger] options@[k].0),
            within@ == options@.take(i as int).filter(pred),
            forall|k: int| 0 <= k < within@.len() ==> pos_inner(#[trigger] within@[k].0),
        decreases options@.len() - i,
    {
        proof {
            crate::model::lemma_filter_step(options@, i as int, pred);
        }
        let (pos, ore) = options[i];
        assert(pos_inner(options@[i as int].0));
        let w = trip_rounds(turn, role.pos, pos);
        if budget <= 0 || w <= budget {
            within.push((pos, ore));
        }
        i += 1;
    }
    assert(options@.take(options@.len() as int) =~= options@);
    if within.len() == 0 {
        return None;
    }
    let free = free_slots(role);
    let mut b: usize = 0;
    let mut b_price = priced(turn, state, within[0].1);
    assert(pos_inner(within@[0].0));
    let mut b_walk = trip_rounds(turn, role.pos, within[0].0);
    assert(within@.take(1).drop_last() =~= Seq::<(Pos, Item)>::empty());
    assert(within@.take(1).last() == within@[0]);
    assert(best_mine(turn, state, *role, within@.take(1).drop_last()) is None);
    assert(best_mine(turn, state, *role, within@.take(1)) == Some(within@[0]));
    let mut k: usize = 1;
    while k < within.len()
        invariant
            1 <= k <= within@.len(),
            b < k,
            turn.wf(),
            state.wf(),
            role.wf(),
            0 <= free <= 1_000_000,
            free == (if role.capacity - role.backpack@.len() > 0 { role.capacity - role.backpack@.len() } else { 0 }),
            forall|j: int| 0 <= j < within@.len() ==> pos_inner(#[trigger] within@[j].0),
            b_price == spec_priced(turn, state, within@[b as int].1),
            -2_000_000 <= b_price <= 2_000_000,
            b_walk == walk_of(turn, *role, within@[b as int].0),
            0 <= b_walk <= 4_000_001,
            best_mine(turn, state, *role, within@.take(k as int)) == Some(within@[b as int]),
        decreases within@.len() - k,
    {
        assert(within@.take(k as int + 1).drop_last() =~= within@.take(k as int));
        assert(within@.take(k as int + 1).last() == within@[k as int]);
        let cand = within[k];
        assert(pos_inner(within@[k as int].0));
        let c_price = priced(turn, state, cand.1);
        let c_walk = trip_rounds(turn, role.pos, cand.0);
        let order = roi_compare(b_price, b_walk, c_price, c_walk, free);
        let keep = order == 1 || (order == 0 && (b_walk < c_walk || (b_walk == c_walk && (within[b].0.x > cand.0.x
            || (within[b].0.x == cand.0.x && within[b].0.y > cand.0.y)))));
        if !keep {
            b = k;
            b_price = c_price;
            b_walk = c_walk;
        }
        k += 1;
    }
    assert(within@.take(within@.len() as int) =~= within@);
    Some(within[b])
}

/// A vein the economy worker may work: not stone, its ore not off the list,
/// not claimed, and a walk the afternoon still allows.
pub open spec fn sellable_vein(turn: &Turn, state: &BotState, role: Unit, claimed: Seq<Pos>) -> spec_fn((Pos, Item)) -> bool {
    |m: (Pos, Item)| m.1 != STONE && mine_open(turn, state, claimed)(m) && in_budget(turn, role)(m)
}

/// `a` beats `b` for the sellable pick: more gold per round, then the
/// shorter walk, then the larger y.
pub open spec fn sell_gt(turn: &Turn, state: &BotState, role: Unit, a: (Pos, Item), b: (Pos, Item)) -> bool {
    let free = if role.capacity - role.backpack@.len() > 0 { role.capacity - role.backpack@.len() } else { 0 };
    let wa = walk_of(turn, role, a.0);
    let wb = walk_of(turn, role, b.0);
    let pa = spec_priced(turn, state, a.1);
    let pb = spec_priced(turn, state, b.1);
    ||| roi_gt(pa, wa, pb, wb, free)
    ||| roi_eq(pa, wa, pb, wb, free) && (wa < wb || (wa == wb && a.0.y > b.0.y))
}

/// The best sellable vein of `s`, the first of equals.
pub open spec fn best_sellable(turn: &Turn, state: &BotState, role: Unit, s: Seq<(Pos, Item)>) -> Option<(Pos, Item)>
    decreases s.len(),
{
    if s.len() == 0 {
        None
    } else {
        match best_sellable(turn, state, role, s.drop_last()) {
            None => Some(s.last()),
            Some(b) => if sell_gt(turn, state, role, s.last(), b) { Some(s.last()) } else { Some(b) },
        }
    }
}

pub open spec fn spec_choose_sellable_mine(turn: &Turn, state: &BotState, role: Unit, claimed: Seq<Pos>) -> Option<(Pos, Item)> {
    match best_sellable(turn, state, role, mine_list(turn.zones@).filter(sellable_vein(turn, state, role, claimed))) {
        Some(m) => Some(m),
        None => spec_choose_mine(turn, state, role, 0, claimed),
    }
}

proof fn lemma_best_sellable_in(turn: &Turn, state: &BotState, role: Unit, s: Seq<(Pos, Item)>)
    ensures
        best_sellable(turn, state, role, s) matches Some(m) ==> s.contains(m),
    decreases s.len(),
{
    if s.len() > 0 {
        lemma_best_sellable_in(turn, state, role, s.drop_last());
        if let Some(b) = best_sellable(turn, state, role, s.drop_last()) {
            let k = choose|k: int| 0 <= k < s.drop_last().len() && s.drop_last()[k] == b;
            assert(s[k] == b);
        }
        assert(s[s.len() - 1] == s.last());
    }
}

proof fn lemma_best_mine_in(turn: &Turn, state: &BotState, role: Unit, s: Seq<(Pos, Item)>)
    ensures
        best_mine(turn, state, role, s) matches Some(m) ==> s.contains(m),
    decreases s.len(),
{
    if s.len() > 0 {
        lemma_best_mine_in(turn, state, role, s.drop_last());
        if let Some(b) = best_mine(turn, state, role, s.drop_last()) {
            let k = choose|k: int| 0 <= k < s.drop_last().len() && s.drop_last()[k] == b;
            assert(s[k] == b);
        }
        assert(s[s.len() - 1] == s.last());
    }
}

proof fn lemma_nearest_stone_in(turn: &Turn, role: Unit, s: Seq<(Pos, Item)>)
    ensures
        nearest_stone(turn, role, s) matches Some(m) ==> s.contains(m) && m.1 == STONE,
    decreases s.len(),
{
    if s.len() > 0 {
        lemma_nearest_stone_in(turn, role, s.drop_last());
        if let Some(b) = nearest_stone(turn, role, s.drop_last()) {
            let k = choose|k: int| 0 <= k < s.drop_last().len() && s.drop_last()[k] == b;
            assert(s[k] == b);
        }
        assert(s[s.len() - 1] == s.last());
    }
}

proof fn lemma_filter_member<A>(s: Seq<A>, p: spec_fn(A) -> bool, m: A)
    requires
        s.filter(p).contains(m),
    ensures
        s.contains(m),
        p(m),
{
    broadcast use vstd::seq_lib::group_filter_ensures;
    s.lemma_filter_contains_rev(p, m);
    let k = choose|k: int| 0 <= k < s.filter(p).len() && s.filter(p)[k] == m;
    s.lemma_filter_pred(p, k);
}

/// The nearest stone vein is one no other stone vein of the list is nearer
/// than: the shortest walk, then the lowest x, then the lowest y.
pub proof fn law_nearest_stone_is_nearest(turn: &Turn, role: Unit, s: Seq<(Pos, Item)>)
    ensures
        nearest_stone(turn, role, s) matches Some(m) ==>
            forall|k: int| 0 <= k < s.len() && (#[trigger] s[k]).1 == STONE ==> !nearer(turn, role, s[k].0, m.0),
        (exists|k: int| 0 <= k < s.len() && (#[trigger] s[k]).1 == STONE) ==> nearest_stone(turn, role, s) is Some,
    decreases s.len(),
{
    if s.len() > 0 {
        let t = s.drop_last();
        law_nearest_stone_is_nearest(turn, role, t);
        let last = s.last();
        assert(s[s.len() - 1] == last);
        assert forall|k: int| 0 <= k < t.len() implies #[trigger] s[k] == t[k] by {}
        if (exists|k: int| 0 <= k < s.len() && (#[trigger] s[k]).1 == STONE) && last.1 != STONE {
            let k = choose|k: int| 0 <= k < s.len() && (#[trigger] s[k]).1 == STONE;
            assert(t[k].1 == STONE);
        }
        if let Some(m) = nearest_stone(turn, role, s) {
            assert forall|k: int| 0 <= k < s.len() && (#[trigger] s[k]).1 == STONE implies !nearer(turn, role, s[k].0, m.0) by {
                if k < t.len() {
                    assert(t[k].1 == STONE);
                    if let Some(b) = nearest_stone(turn, role, t) {
                        assert(!nearer(turn, role, t[k].0, b.0));
                    }
                }
            }
        }
    }
}

proof fn lemma_frac_trans(n1: int, d1: int, n2: int, d2: int, n3: int, d3: int)
    requires
        d1 > 0,
        d2 > 0,
        d3 > 0,
    ensures
        n1 * d2 > n2 * d1 && n2 * d3 >= n3 * d2 ==> n1 * d3 > n3 * d1,
        n1 * d2 >= n2 * d1 && n2 * d3 > n3 * d2 ==> n1 * d3 > n3 * d1,
        n1 * d2 == n2 * d1 && n2 * d3 == n3 * d2 ==> n1 * d3 == n3 * d1,
{
    assert(n1 * d2 > n2 * d1 && n2 * d3 >= n3 * d2 ==> n1 * d3 > n3 * d1) by (nonlinear_arith)
        requires d1 > 0, d2 > 0, d3 > 0,
    {
        if n1 * d2 > n2 * d1 && n2 * d3 >= n3 * d2 {
            assert(n1 * d2 * d3 > n2 * d1 * d3);
            assert(n2 * d3 * d1 >= n3 * d2 * d1);
            assert((n1 * d3) * d2 > (n3 * d1) * d2);
        }
    }
    assert(n1 * d2 >= n2 * d1 && n2 * d3 > n3 * d2 ==> n1 * d3 > n3 * d1) by (nonlinear_arith)
        requires d1 > 0, d2 > 0, d3 > 0,
    {
        if n1 * d2 >= n2 * d1 && n2 * d3 > n3 * d2 {
            assert(n1 * d2 * d3 >= n2 * d1 * d3);
            assert(n2 * d3 * d1 > n3 * d2 * d1);
            assert((n1 * d3) * d2 > (n3 * d1) * d2);
        }
    }
    assert(n1 * d2 == n2 * d1 && n2 * d3 == n3 * d2 ==> n1 * d3 == n3 * d1) by (nonlinear_arith)
        requires d1 > 0, d2 > 0, d3 > 0,
    {
        if n1 * d2 == n2 * d1 && n2 * d3 == n3 * d2 {
            assert(n1 * d2 * d3 == n2 * d1 * d3);
            assert(n2 * d3 * d1 == n3 * d2 * d1);
            assert((n1 * d3) * d2 == (n3 * d1) * d2);
        }
    }
}

/// The ROI order never has a cycle: if neither `v` beats `b` nor `b` beats
/// `l`, then `v` does not beat `l`; and no vein beats itself or a vein that
/// beats it.
proof fn lemma_mine_gt_order(turn: &Turn, state: &BotState, role: Unit, v: (Pos, Item), b: (Pos, Item), l: (Pos, Item))
    ensures
        !mine_gt(turn, state, role, v, v),
        mine_gt(turn, state, role, v, b) ==> !mine_gt(turn, state, role, b, v),
        !mine_gt(turn, state, role, v, b) && !mine_gt(turn, state, role, b, l) ==> !mine_gt(turn, state, role, v, l),
{
    let free = if role.capacity - role.backpack@.len() > 0 { role.capacity - role.backpack@.len() } else { 0 };
    let rv = roi_frac(spec_priced(turn, state, v.1), walk_of(turn, role, v.0), free);
    let rb = roi_frac(spec_priced(turn, state, b.1), walk_of(turn, role, b.0), free);
    let rl = roi_frac(spec_priced(turn, state, l.1), walk_of(turn, role, l.0), free);
    assert(rv.1 > 0 && rb.1 > 0 && rl.1 > 0);
    lemma_frac_trans(rb.0, rb.1, rv.0, rv.1, rl.0, rl.1);
    lemma_frac_trans(rv.0, rv.1, rb.0, rb.1, rl.0, rl.1);
}

/// The best vein of a list by the ROI order is beaten by none of the list.
proof fn lemma_best_mine_max(turn: &Turn, state: &BotState, role: Unit, s: Seq<(Pos, Item)>)
    ensures
        best_mine(turn, state, role, s) matches Some(m) ==>
            forall|k: int| 0 <= k < s.len() ==> !mine_gt(turn, state, role, #[trigger] s[k], m),
    decreases s.len(),
{
    if s.len() > 0 {
        let t = s.drop_last();
        lemma_best_mine_max(turn, state, role, t);
        let last = s.last();
        assert(s[s.len() - 1] == last);
        assert forall|k: int| 0 <= k < t.len() implies #[trigger] s[k] == t[k] by {}
        match best_mine(turn, state, role, t) {
            None => {
                lemma_mine_gt_order(turn, state, role, last, last, last);
            },
            Some(b) => {
                if mine_gt(turn, state, role, b, last) {
                    assert forall|k: int| 0 <= k < s.len() implies !mine_gt(turn, state, role, #[trigger] s[k], b) by {
                        if k == s.len() - 1 {
                            lemma_mine_gt_order(turn, state, role, b, last, b);
                        } else {
                            assert(!mine_gt(turn, state, role, t[k], b));
                        }
                    }
                } else {
                    assert forall|k: int| 0 <= k < s.len() implies !mine_gt(turn, state, role, #[trigger] s[k], last) by {
                        if k == s.len() - 1 {
                            lemma_mine_gt_order(turn, state, role, last, last, last);
                        } else {
                            assert(!mine_gt(turn, state, role, t[k], b));
                            lemma_mine_gt_order(turn, state, role, t[k], b, last);
                        }
                    }
                }
            },
        }
    }
}

/// Gold per round ranks the veins: with room in the pack and both walks
/// under way, a vein paying `price × free / walk` strictly more than
/// another is ranked above it, whatever their prices and walks.
pub proof fn law_mine_rank_by_gold_per_round(turn: &Turn, state: &BotState, role: Unit, a: (Pos, Item), b: (Pos, Item))
    requires
        role.capacity - role.backpack@.len() > 0,
        walk_of(turn, role, a.0) > 0,
        walk_of(turn, role, b.0) > 0,
        spec_priced(turn, state, a.1) * walk_of(turn, role, b.0) > spec_priced(turn, state, b.1) * walk_of(turn, role, a.0),
    ensures
        mine_gt(turn, state, role, a, b),
        !mine_gt(turn, state, role, b, a),
{
    let free = role.capacity - role.backpack@.len();
    let pa = spec_priced(turn, state, a.1);
    let pb = spec_priced(turn, state, b.1);
    let wa = walk_of(turn, role, a.0);
    let wb = walk_of(turn, role, b.0);
    assert((pa * free) * wb > (pb * free) * wa) by (nonlinear_arith)
        requires pa * wb > pb * wa, free > 0,
    {
        assert(pa * wb * free > pb * wa * free);
    }
}

/// The plain mine pick (no stone wanted, or no open stone vein) takes the
/// open vein within the daylight budget that pays the most gold per round:
/// no such vein with its walk under way pays strictly more than the pick.
pub proof fn law_mine_pick_best_rate(turn: &Turn, state: &BotState, role: Unit, stone_demand: int, claimed: Seq<Pos>,
    v: (Pos, Item))
    requires
        !(stone_demand > 0 && nearest_stone(turn, role, mine_list(turn.zones@).filter(mine_open(turn, state, claimed))) is Some),
        mine_list(turn.zones@).contains(v),
        !on_outage(state.outages@, v.1, turn.day),
        !claimed.contains(v.0),
        day_budget(turn) <= 0 || walk_of(turn, role, v.0) <= day_budget(turn),
        role.capacity - role.backpack@.len() > 0,
        walk_of(turn, role, v.0) > 0,
    ensures
        spec_choose_mine(turn, state, role, stone_demand, claimed) matches Some(m) ==>
            (walk_of(turn, role, m.0) > 0 ==> !(spec_priced(turn, state, v.1) * walk_of(turn, role, m.0)
                > spec_priced(turn, state, m.1) * walk_of(turn, role, v.0))),
{
    broadcast use vstd::seq_lib::group_filter_ensures;
    let all = mine_list(turn.zones@);
    let options = all.filter(mine_open(turn, state, claimed));
    let within = options.filter(in_budget(turn, role));
    let i = choose|i: int| 0 <= i < all.len() && all[i] == v;
    all.lemma_filter_contains(mine_open(turn, state, claimed), i);
    let j = choose|j: int| 0 <= j < options.len() && options[j] == v;
    options.lemma_filter_contains(in_budget(turn, role), j);
    let k = choose|k: int| 0 <= k < within.len() && within[k] == v;
    lemma_best_mine_max(turn, state, role, within);
    if let Some(m) = spec_choose_mine(turn, state, role, stone_demand, claimed) {
        assert(options.len() > 0);
        assert(within.len() > 0);
        assert(!mine_gt(turn, state, role, within[k], m));
        if walk_of(turn, role, m.0) > 0 && spec_priced(turn, state, v.1) * walk_of(turn, role, m.0)
            > spec_priced(turn, state, m.1) * walk_of(turn, role, v.0) {
            law_mine_rank_by_gold_per_round(turn, state, role, v, m);
        }
    }
}

/// The mine pick only ever names an open vein (listed, not claimed, no
/// outage); with stone wanted and an open stone vein, it names stone.
pub proof fn law_mine_pick_is_open(turn: &Turn, state: &BotState, role: Unit, stone_demand: int, claimed: Seq<Pos>)
    ensures
        spec_choose_mine(turn, state, role, stone_demand, claimed) matches Some(m) ==>
            mine_list(turn.zones@).contains(m) && !claimed.contains(m.0) && !on_outage(state.outages@, m.1, turn.day),
        stone_demand > 0 && nearest_stone(turn, role, mine_list(turn.zones@).filter(mine_open(turn, state, claimed))) is Some
            ==> (spec_choose_mine(turn, state, role, stone_demand, claimed) matches Some(m) && m.1 == STONE),
        !(stone_demand > 0 && nearest_stone(turn, role, mine_list(turn.zones@).filter(mine_open(turn, state, claimed))) is Some)
            ==> (spec_choose_mine(turn, state, role, stone_demand, claimed) matches Some(m) ==>
                day_budget(turn) <= 0 || walk_of(turn, role, m.0) <= day_budget(turn)),
{
    let options = mine_list(turn.zones@).filter(mine_open(turn, state, claimed));
    lemma_nearest_stone_in(turn, role, options);
    let within = options.filter(in_budget(turn, role));
    lemma_best_mine_in(turn, state, role, within);
    if let Some(m) = spec_choose_mine(turn, state, role, stone_demand, claimed) {
        if stone_demand > 0 && nearest_stone(turn, role, options) is Some {
            lemma_filter_member(mine_list(turn.zones@), mine_open(turn, state, claimed), m);
        } else {
            lemma_filter_member(options, in_budget(turn, role), m);
            lemma_filter_member(mine_list(turn.zones@), mine_open(turn, state, claimed), m);
        }
    }
}

/// The sellable pick is never stone and never a claimed vein, unless no
/// sellable vein is in reach, when it is the plain mine pick.
pub proof fn law_sellable_pick(turn: &Turn, state: &BotState, role: Unit, claimed: Seq<Pos>)
    ensures
        ({
            let vs = mine_list(turn.zones@).filter(sellable_vein(turn, state, role, claimed));
            &&& vs.len() > 0 ==> (spec_choose_sellable_mine(turn, state, role, claimed) matches Some(m)
                && m.1 != STONE && !claimed.contains(m.0) && mine_list(turn.zones@).contains(m)
                && !on_outage(state.outages@, m.1, turn.day)
                && (day_budget(turn) <= 0 || walk_of(turn, role, m.0) <= day_budget(turn)))
            &&& vs.len() == 0 ==> spec_choose_sellable_mine(turn, state, role, claimed)
                == spec_choose_mine(turn, state, role, 0, claimed)
        }),
{
    let vs = mine_list(turn.zones@).filter(sellable_vein(turn, state, role, claimed));
    lemma_best_sellable_in(turn, state, role, vs);
    if vs.len() > 0 {
        reveal_with_fuel(best_sellable, 1);
        let m = best_sellable(turn, state, role, vs)->0;
        lemma_filter_member(mine_list(turn.zones@), sellable_vein(turn, state, role, claimed), m);
    }
}

/// The vein of an ore the vendor takes with the best gold per round (ties to
/// the shorter walk, then the larger y), among those a trip reaches before
/// dusk; stone only when no such vein is left.
pub fn choose_sellable_mine(turn: &Turn, state: &BotState, role: &Unit, claimed: &[Pos]) -> (r: Option<(Pos, Item)>)
    requires
        turn.wf(),
        state.wf(),
        role.wf(),
    ensures
        r == spec_choose_sellable_mine(turn, state, *role, claimed@),
        r matches Some(m) ==> pos_inner(m.0),
{
    let left = DUSK_ROUND - turn.in_day_round;
    let budget = (if left > 0 { left } else { 0 }) - DUSK_TRIP_MARGIN;
    let free = free_slots(role);
    let all = turn.all_mines();
    proof {
        lemma_mine_list_inner(turn.zones@);
    }
    let ghost pred = sellable_vein(turn, state, *role, claimed@);
    let ghost mut kept: Seq<(Pos, Item)> = Seq::empty();
    let mut best: Option<(Pos, Item)> = None;
    let mut b_walk: i64 = 0;
    let mut b_price: i64 = 0;
    let mut i: usize = 0;
    while i < all.len()
        invariant
            i <= all@.len(),
            turn.wf(),
            state.wf(),
            role.wf(),
            all@ == mine_list(turn.zones@),
            forall|k: int| 0 <= k < all@.len() ==> pos_inner(#[trigger] all@[k].0),
            budget == day_budget(turn),
            0 <= free <= 1_000_000,
            free == (if role.capacity - role.backpack@.len() > 0 { role.capacity - role.backpack@.len() } else { 0 }),
            pred == sellable_vein(turn, state, *role, claimed@),
            kept == all@.take(i as int).filter(pred),
            best == best_sellable(turn, state, *role, kept),
            best matches Some(b) ==> pos_inner(b.0),
            best matches Some(b) ==> b_walk == walk_of(turn, *role, b.0) && 0 <= b_walk <= 4_000_001
                && b_price == spec_priced(turn, state, b.1) && -2_000_000 <= b_price <= 2_000_000,
        decreases all@.len() - i,
    {
        proof {
            crate::model::lemma_filter_step(all@, i as int, pred);
        }
        let (pos, ore) = all[i];
        assert(pos_inner(all@[i as int].0));
        if ore != STONE && !state.ore_on_outage(ore, turn.day) && !crate::model::contains_pos(claimed, pos) {
            let trip = trip_rounds(turn, role.pos, pos);
            if !(budget > 0 && trip > budget) {
                let price = priced(turn, state, ore);
                let better = match best {
                    None => true,
                    Some((bp, _)) => {
                        let order = roi_compare(price, trip, b_price, b_walk, free);
                        order == 1 || (order == 0 && (trip < b_walk || (trip == b_walk && pos.y > bp.y)))
                    },
                };
                proof {
                    assert(kept.push(all@[i as int]).drop_last() =~= kept);
                }
                if better {
                    best = Some((pos, ore));
                    b_walk = trip;
                    b_price = price;
                }
                proof {
                    kept = kept.push(all@[i as int]);
                }
            }
        }
        i += 1;
    }
    assert(all@.take(all@.len() as int) =~= all@);
    match best {
        Some(m) => Some(m),
        None => choose_mine(turn, state, role, 0, claimed),
    }
}

pub open spec fn spec_intent_list(turn: &Turn, state: &BotState, reserve: int) -> Seq<Need> {
    spec_clear_gap(state.coach.policy.gap_funding, turn, raw_intents(turn, state, reserve))
}

/// A need with a deadline the purse cannot yet pay, whose deadline a sale
/// now (`travel` away) is the last chance to meet.
pub open spec fn urgent_need(turn: &Turn, travel: int, n: Need) -> bool {
    let price = shop_price(turn, n.name);
    &&& n.num > 0 && n.latest_round > 0
    &&& priced_ok(price)
    &&& price * n.num > turn.gold
    &&& turn.in_day_round + travel + 1 >= n.latest_round
}

pub open spec fn spec_purchase_urgent(turn: &Turn, state: &BotState, role: Unit) -> bool {
    let travel = spec_travel(turn, role.pos, zone_cells(turn.zones@, ZoneKind::Vendor));
    let needs = spec_intent_list(turn, state, 0);
    exists|i: int| 0 <= i < needs.len() && urgent_need(turn, travel, #[trigger] needs[i])
}

/// Must ore be cashed in now, because a funding goal's deadline is within
/// one trip to the vendor and the purse cannot yet pay for it?
#[verifier::rlimit(40)]
fn purchase_urgent(turn: &Turn, state: &BotState, role: &Unit) -> (r: bool)
    requires
        turn.wf(),
        state.wf(),
        role.wf(),
    ensures
        r == spec_purchase_urgent(turn, state, *role),
{
    let travel = vendor_travel(turn, role.pos);
    let needs = intent_list(turn, state, 0);
    let ghost tr = travel as int;
    let mut i: usize = 0;
    while i < needs.len()
        invariant
            i <= needs@.len(),
            turn.wf(),
            0 <= travel <= 2_000_000,
            travel == spec_travel(turn, role.pos, zone_cells(turn.zones@, ZoneKind::Vendor)),
            needs@ == spec_intent_list(turn, state, 0),
            forall|k: int| 0 <= k < i ==> !urgent_need(turn, travel as int, #[trigger] needs@[k]),
        decreases needs@.len() - i,
    {
        let n = needs[i];
        if n.num > 0 && n.latest_round > 0 {
            let price = shop_price_of(turn, n.name);
            if price > 0 && price != i64::MAX {
                proof {
                    lemma_i64_product(price, n.num);
                }
                if price as i128 * n.num as i128 > turn.gold as i128
                    && turn.in_day_round + travel + 1 >= n.latest_round {
                    assert(urgent_need(turn, travel as int, needs@[i as int]));
                    return true;
                }
            }
        }
        i += 1;
    }
    false
}

pub open spec fn spec_funding_next_weapon(turn: &Turn, role: Unit) -> bool {
    tower_total(turn) < 3 && turn.gold < WEAPON_BUILD_COST && ore_total(role) > 0
}

/// Is this role sitting on a load the team's next weapon is waiting for?
fn funding_next_weapon(turn: &Turn, role: &Unit) -> (r: bool)
    requires
        turn.wf(),
        role.wf(),
    ensures
        r == spec_funding_next_weapon(turn, *role),
{
    turn.towers_len() < 3 && turn.gold < WEAPON_BUILD_COST && total_ores(role) > 0
}

pub open spec fn spec_sell_batch(turn: &Turn, state: &BotState, role: Unit) -> int {
    let travel = spec_travel(turn, role.pos, zone_cells(turn.zones@, ZoneKind::Vendor));
    if travel <= NEAR_VENDOR || spec_purchase_urgent(turn, state, role) || spec_funding_next_weapon(turn, role) {
        SELL_BATCH as int
    } else {
        let b = SELL_BATCH + (travel - NEAR_VENDOR) / 2;
        if b < MAX_SELL_BATCH { b } else { MAX_SELL_BATCH as int }
    }
}

/// How many ore to gather before walking to the vendor: the base batch for a
/// near vendor, an imminent purchase deadline or an unfunded next weapon;
/// otherwise one ore more per two rounds of walk beyond the near range, up to
/// the cap.
pub fn sell_batch(turn: &Turn, state: &BotState, role: &Unit) -> (n: i64)
    requires
        turn.wf(),
        state.wf(),
        role.wf(),
    ensures
        n == spec_sell_batch(turn, state, *role),
        SELL_BATCH <= n <= MAX_SELL_BATCH,
{
    let travel = vendor_travel(turn, role.pos);
    if travel <= NEAR_VENDOR || purchase_urgent(turn, state, role) || funding_next_weapon(turn, role) {
        return SELL_BATCH;
    }
    let b = SELL_BATCH + (travel - NEAR_VENDOR) / 2;
    if b < MAX_SELL_BATCH { b } else { MAX_SELL_BATCH }
}

/// The role holds `ore` and may sell it (stone only beyond the ring's need).
pub open spec fn sellable_here(turn: &Turn, role: Unit, stone_demand: int, ore: Item) -> bool {
    count_in(role.backpack@, ore) > 0 && !(ore == STONE && team_count(turn.ours@, STONE) <= stone_demand + STONE_BUFFER)
}

/// A sellable stack of five or more whose price is at least twice its
/// baseline.
pub open spec fn spiked(turn: &Turn, state: &BotState, role: Unit, stone_demand: int, ore: Item) -> bool {
    sellable_here(turn, role, stone_demand, ore) && today_price(turn, state, ore) >= base_price(state, ore) * 2
        && count_in(role.backpack@, ore) >= 5
}

pub open spec fn at_vendor(turn: &Turn, role: Unit) -> bool {
    let vs = zone_cells(turn.zones@, ZoneKind::Vendor);
    exists|i: int| 0 <= i < vs.len() && cheb(role.pos, #[trigger] vs[i]) == 1
}

pub open spec fn spec_should_sell(turn: &Turn, state: &BotState, role: Unit, stone_demand: int) -> bool {
    let ores = spec_sellable_ores(turn, role, stone_demand);
    let half_full = role.capacity > 0 && role.backpack@.len() * 2 >= role.capacity;
    if ores == 0 {
        false
    } else if at_vendor(turn, role) {
        sellable_here(turn, role, stone_demand, IRON) || sellable_here(turn, role, stone_demand, STONE)
            || sellable_here(turn, role, stone_demand, COPPER)
    } else if turn.in_day_round >= spec_sell_deadline(turn, role) {
        true
    } else if role.backpack@.len() >= role.capacity || ores >= spec_sell_batch(turn, state, role) || half_full || ores >= 15 {
        true
    } else if stone_demand <= 0 && count_in(role.backpack@, STONE) >= 8 {
        true
    } else {
        spiked(turn, state, role, stone_demand, IRON) || spiked(turn, state, role, stone_demand, STONE)
            || spiked(turn, state, role, stone_demand, COPPER)
    }
}

/// The selling rule: nothing to sell, no sale; at the vendor, a sale exactly
/// when some carried ore may go (stone only above what the ring keeps);
/// away from it, the deadline, a full pack and fifteen ores each send the
/// role to sell.
pub proof fn law_sell_triggers(turn: &Turn, state: &BotState, role: Unit, stone_demand: int)
    ensures
        spec_sellable_ores(turn, role, stone_demand) == 0 ==> !spec_should_sell(turn, state, role, stone_demand),
        spec_sellable_ores(turn, role, stone_demand) > 0 && at_vendor(turn, role) ==>
            (spec_should_sell(turn, state, role, stone_demand) <==> (sellable_here(turn, role, stone_demand, IRON)
                || sellable_here(turn, role, stone_demand, STONE) || sellable_here(turn, role, stone_demand, COPPER))),
        spec_sellable_ores(turn, role, stone_demand) > 0 && !at_vendor(turn, role) && (
            turn.in_day_round >= spec_sell_deadline(turn, role) || role.backpack@.len() >= role.capacity
                || spec_sellable_ores(turn, role, stone_demand) >= 15)
            ==> spec_should_sell(turn, state, role, stone_demand),
{
}

fn next_to_vendor(turn: &Turn, role: &Unit) -> (r: bool)
    requires
        turn.wf(),
        role.wf(),
    ensures
        r == at_vendor(turn, *role),
{
    let vs = turn.vendors();
    proof {
        lemma_zone_cells_inner(turn.zones@, ZoneKind::Vendor);
    }
    let mut i: usize = 0;
    while i < vs.len()
        invariant
            i <= vs@.len(),
            role.wf(),
            vs@ == zone_cells(turn.zones@, ZoneKind::Vendor),
            forall|k: int| 0 <= k < vs@.len() ==> pos_inner(#[trigger] vs@[k]),
            forall|k: int| 0 <= k < i ==> cheb(role.pos, #[trigger] vs@[k]) != 1,
        decreases vs@.len() - i,
    {
        if chebyshev(role.pos, vs[i]) == 1 {
            return true;
        }
        i += 1;
    }
    false
}

fn sellable_of(turn: &Turn, role: &Unit, stone_demand: i64, ore: Item) -> (r: bool)
    requires
        turn.wf(),
        role.wf(),
        -1_000_000_000_000 <= stone_demand <= 1_000_000_000_000,
    ensures
        r == sellable_here(turn, *role, stone_demand as int, ore),
{
    role.count_item(ore) > 0 && !(ore == STONE && team_ores(turn, STONE) <= stone_demand + STONE_BUFFER)
}

fn spiked_of(turn: &Turn, state: &BotState, role: &Unit, stone_demand: i64, ore: Item) -> (r: bool)
    requires
        turn.wf(),
        state.wf(),
        role.wf(),
        -1_000_000_000_000 <= stone_demand <= 1_000_000_000_000,
    ensures
        r == spiked(turn, state, *role, stone_demand as int, ore),
{
    if !sellable_of(turn, role, stone_demand, ore) {
        return false;
    }
    proof {
        crate::model::lemma_price_in_bounds(state.base_prices@, ore);
        crate::model::lemma_price_in_bounds(turn.vendor_prices@, ore);
    }
    let b0 = match crate::model::price_of(&state.base_prices, ore) { Some(p) => p, None => 1 };
    let base = if b0 > 1 { b0 } else { 1 };
    let now = match crate::model::price_of(&turn.vendor_prices, ore) { Some(p) => p, None => base };
    now >= base * 2 && role.count_item(ore) >= 5
}

/// Should this role head to the vendor? Never with nothing sellable. At the
/// counter: while any sellable ore is left. Elsewhere: at the dusk deadline,
/// with a full or half-full pack, a batch worth the walk, fifteen sellable
/// ore, eight stones the finished ring no longer needs, or a stack of five
/// whose price has doubled.
pub fn should_sell(turn: &Turn, state: &BotState, role: &Unit, stone_demand: i64) -> (r: bool)
    requires
        turn.wf(),
        state.wf(),
        role.wf(),
        -1_000_000_000_000 <= stone_demand <= 1_000_000_000_000,
    ensures
        r == spec_should_sell(turn, state, *role, stone_demand as int),
{
    let ores = sellable_ores(turn, role, stone_demand);
    if ores == 0 {
        return false;
    }
    if next_to_vendor(turn, role) {
        return sellable_of(turn, role, stone_demand, IRON) || sellable_of(turn, role, stone_demand, STONE)
            || sellable_of(turn, role, stone_demand, COPPER);
    }
    if turn.in_day_round >= sell_deadline(turn, role) {
        return true;
    }
    let half_full = role.capacity > 0 && role.backpack.len() as i64 * 2 >= role.capacity;
    if role.backpack_full() || ores >= sell_batch(turn, state, role) || half_full || ores >= 15 {
        return true;
    }
    if stone_demand <= 0 && role.count_item(STONE) >= 8 {
        return true;
    }
    spiked_of(turn, state, role, stone_demand, IRON) || spiked_of(turn, state, role, stone_demand, STONE)
        || spiked_of(turn, state, role, stone_demand, COPPER)
}

/// A need whose deadline a walk to the shop still meets and whose price the
/// gold plus the sellable ore in our packs already covers.
pub open spec fn funded_need(turn: &Turn, travel: int, liquid: int, n: Need) -> bool {
    let price = shop_price(turn, n.name);
    &&& n.num > 0 && n.latest_round > 0
    &&& priced_ok(price)
    &&& turn.in_day_round + travel <= n.latest_round
    &&& liquid >= price * n.num
}

pub open spec fn spec_buyer_must_preposition(turn: &Turn, role: Unit, needs: Seq<Need>) -> bool {
    let travel = spec_travel(turn, role.pos, zone_cells(turn.zones@, ZoneKind::WeaponShop));
    let liquid = turn.gold + liquid_sum(turn, turn.ours@);
    exists|i: int| 0 <= i < needs.len() && funded_need(turn, travel, liquid, #[trigger] needs[i])
}

/// Must the buyer leave for the shop now? Only when a need's deadline is
/// within one trip and the gold plus the sellable ore in our packs already
/// covers its price.
pub fn buyer_must_preposition(turn: &Turn, role: &Unit, needs: &[Need]) -> (r: bool)
    requires
        turn.wf(),
        role.wf(),
    ensures
        r == spec_buyer_must_preposition(turn, *role, needs@),
{
    let travel = shop_travel(turn, role.pos);
    let liquid = liquid_gold(turn);
    let mut i: usize = 0;
    while i < needs.len()
        invariant
            i <= needs@.len(),
            turn.wf(),
            0 <= travel <= 2_000_000,
            travel == spec_travel(turn, role.pos, zone_cells(turn.zones@, ZoneKind::WeaponShop)),
            liquid == turn.gold + liquid_sum(turn, turn.ours@),
            forall|k: int| 0 <= k < i ==> !funded_need(turn, travel as int, liquid as int, #[trigger] needs@[k]),
        decreases needs@.len() - i,
    {
        let n = needs[i];
        if n.num > 0 && n.latest_round > 0 {
            let price = shop_price_of(turn, n.name);
            if price > 0 && price != i64::MAX && turn.in_day_round + travel <= n.latest_round {
                proof {
                    lemma_i64_product(price, n.num);
                }
                if liquid as i128 >= price as i128 * n.num as i128 {
                    assert(funded_need(turn, travel as int, liquid as int, needs@[i as int]));
                    return true;
                }
            }
        }
        i += 1;
    }
    false
}

// ---------------------------------------------------------------------------
// Making room in a full pack
// ---------------------------------------------------------------------------

/// The role may throw away `ore`: it holds some, and stone only while the
/// team holds more than the ring needs.
pub open spec fn droppable(turn: &Turn, role: Unit, stone_demand: int, ore: Item) -> bool {
    count_in(role.backpack@, ore) != 0 && !(ore == STONE && stone_surplus(turn, stone_demand) <= 0)
}

pub open spec fn cheaper_step(turn: &Turn, state: &BotState, role: Unit, stone_demand: int,
    best: Option<(Item, i64)>, ore: Item) -> Option<(Item, i64)> {
    let v = spec_priced(turn, state, ore);
    let cheaper = match best {
        None => true,
        Some((_, held)) => v < held,
    };
    if droppable(turn, role, stone_demand, ore) && cheaper {
        Some((ore, v as i64))
    } else {
        best
    }
}

/// The cheapest ore the role may throw away, and what it is worth (the
/// first of equals, iron before stone before copper).
pub open spec fn spec_cheapest_droppable(turn: &Turn, state: &BotState, role: Unit, stone_demand: int) -> Option<(Item, i64)> {
    cheaper_step(turn, state, role, stone_demand,
        cheaper_step(turn, state, role, stone_demand,
            cheaper_step(turn, state, role, stone_demand, None, IRON), STONE), COPPER)
}

fn cheapest_droppable(turn: &Turn, state: &BotState, role: &Unit, stone_demand: i64) -> (r: Option<(Item, i64)>)
    requires
        turn.wf(),
        state.wf(),
        role.wf(),
        -1_000_000_000_000 <= stone_demand <= 1_000_000_000_000,
    ensures
        r == spec_cheapest_droppable(turn, state, *role, stone_demand as int),
{
    let surplus = team_ores(turn, STONE) - stone_demand - STONE_BUFFER;
    let mut best: Option<(Item, i64)> = None;
    let ores = crate::model::ores();
    let mut i: usize = 0;
    while i < 3
        invariant
            i <= 3,
            turn.wf(),
            state.wf(),
            role.wf(),
            ores@ == crate::model::spec_ores(),
            surplus == stone_surplus(turn, stone_demand as int),
            i == 0 ==> best is None,
            i == 1 ==> best == cheaper_step(turn, state, *role, stone_demand as int, None, IRON),
            i == 2 ==> best == cheaper_step(turn, state, *role, stone_demand as int,
                cheaper_step(turn, state, *role, stone_demand as int, None, IRON), STONE),
            i == 3 ==> best == spec_cheapest_droppable(turn, state, *role, stone_demand as int),
        decreases 3 - i,
    {
        let ore = ores[i];
        let count = role.count_item(ore);
        if !(count == 0 || (ore == STONE && surplus <= 0)) {
            let value = priced(turn, state, ore);
            let replace = match best {
                None => true,
                Some((_, held)) => value < held,
            };
            if replace {
                best = Some((ore, value));
            }
        }
        i += 1;
    }
    best
}

/// A vein worth strictly more per ore than `held`, of another ore, open
/// today and within the afternoon's walking budget.
pub open spec fn richer_vein(turn: &Turn, state: &BotState, role: Unit, cheapest: Item, held: i64) -> bool {
    let mines = mine_list(turn.zones@);
    exists|i: int| 0 <= i < mines.len() && (#[trigger] mines[i]).1 != cheapest
        && !on_outage(state.outages@, mines[i].1, turn.day)
        && (day_budget(turn) <= 0 || walk_of(turn, role, mines[i].0) <= day_budget(turn))
        && spec_priced(turn, state, mines[i].1) > held
}

pub open spec fn spec_discard_command(turn: &Turn, state: &BotState, role: Unit, stone_demand: int) -> Option<RoleCommand> {
    if role.backpack@.len() < role.capacity {
        None
    } else {
        match spec_cheapest_droppable(turn, state, role, stone_demand) {
            None => None,
            Some((c, v)) => if richer_vein(turn, state, role, c, v) { Some(RoleCommand::Drop(c)) } else { None },
        }
    }
}

/// Make room in a full pack: drop the cheapest droppable ore, when a vein
/// worth strictly more per ore is still within the afternoon's reach.
pub fn discard_command(turn: &Turn, state: &BotState, role: &Unit, stone_demand: i64) -> (r: Option<RoleCommand>)
    requires
        turn.wf(),
        state.wf(),
        role.wf(),
        -1_000_000_000_000 <= stone_demand <= 1_000_000_000_000,
    ensures
        r == spec_discard_command(turn, state, *role, stone_demand as int),
{
    if !role.backpack_full() {
        return None;
    }
    let (cheapest, held) = match cheapest_droppable(turn, state, role, stone_demand) {
        Some(c) => c,
        None => return None,
    };
    let left = DUSK_ROUND - turn.in_day_round;
    let budget = (if left > 0 { left } else { 0 }) - DUSK_TRIP_MARGIN;
    let mines = turn.all_mines();
    proof {
        lemma_mine_list_inner(turn.zones@);
    }
    let mut i: usize = 0;
    while i < mines.len()
        invariant
            i <= mines@.len(),
            turn.wf(),
            state.wf(),
            role.wf(),
            budget == day_budget(turn),
            mines@ == mine_list(turn.zones@),
            spec_cheapest_droppable(turn, state, *role, stone_demand as int) == Some((cheapest, held)),
            role.backpack@.len() >= role.capacity,
            forall|k: int| 0 <= k < mines@.len() ==> pos_inner(#[trigger] mines@[k].0),
            forall|k: int| 0 <= k < i ==> !((#[trigger] mines@[k]).1 != cheapest
                && !on_outage(state.outages@, mines@[k].1, turn.day)
                && (day_budget(turn) <= 0 || walk_of(turn, *role, mines@[k].0) <= day_budget(turn))
                && spec_priced(turn, state, mines@[k].1) > held),
        decreases mines@.len() - i,
    {
        let (pos, ore) = mines[i];
        assert(pos_inner(mines@[i as int].0));
        let w = trip_rounds(turn, role.pos, pos);
        let v = priced(turn, state, ore);
        if ore != cheapest && !state.ore_on_outage(ore, turn.day) && (budget <= 0 || w <= budget) && v > held {
            assert(mines@[i as int] == (pos, ore));
            assert(richer_vein(turn, state, *role, cheapest, held));
            return Some(RoleCommand::Drop(cheapest));
        }
        i += 1;
    }
    None
}

// ---------------------------------------------------------------------------
// One trip out of the ring and back
// ---------------------------------------------------------------------------

/// One point on a role's trip out of the ring, in the order the trip visits
/// it.
#[derive(Clone, Debug)]
pub enum Stop {
    /// Work the vein at `pos` until `loads` items are in the pack.
    Collect { pos: Pos, ore: Item, loads: i64 },
    /// Cash the pack in at the vendor.
    Sell,
    /// Buy at the weapons shop, one round per item.
    Buy { items: Vec<(Item, i64)> },
}

/// A stop as plain values.
pub enum StopView {
    Collect { pos: Pos, ore: Item, loads: i64 },
    Sell,
    Buy { items: Seq<(Item, i64)> },
}

impl View for Stop {
    type V = StopView;

    open spec fn view(&self) -> StopView {
        match self {
            Stop::Collect { pos, ore, loads } => StopView::Collect { pos: *pos, ore: *ore, loads: *loads },
            Stop::Sell => StopView::Sell,
            Stop::Buy { items } => StopView::Buy { items: items@ },
        }
    }
}

/// One departure from the base and back: the stops in the order walked,
/// what the whole trip costs in rounds, and the daylight it had to fit in.
#[derive(Clone, Debug)]
pub struct Outing {
    pub stops: Vec<Stop>,
    pub rounds: i64,
    pub daylight: i64,
}

pub open spec fn stop_views(s: Seq<Stop>) -> Seq<StopView> {
    s.map_values(|x: Stop| x@)
}

fn same_items(a: &Vec<(Item, i64)>, b: &Vec<(Item, i64)>) -> (r: bool)
    ensures
        r == (a@ == b@),
{
    if a.len() != b.len() {
        return false;
    }
    let mut i: usize = 0;
    while i < a.len()
        invariant
            i <= a@.len(),
            a@.len() == b@.len(),
            forall|k: int| 0 <= k < i ==> a@[k] == b@[k],
        decreases a@.len() - i,
    {
        if a[i].0 != b[i].0 || a[i].1 != b[i].1 {
            return false;
        }
        i += 1;
    }
    assert(a@ =~= b@);
    true
}

fn same_stop(a: &Stop, b: &Stop) -> (r: bool)
    ensures
        r == (a@ == b@),
{
    match (a, b) {
        (Stop::Collect { pos: p1, ore: o1, loads: l1 }, Stop::Collect { pos: p2, ore: o2, loads: l2 }) =>
            *p1 == *p2 && *o1 == *o2 && *l1 == *l2,
        (Stop::Sell, Stop::Sell) => true,
        (Stop::Buy { items: i1 }, Stop::Buy { items: i2 }) => same_items(i1, i2),
        _ => false,
    }
}

impl Outing {
    /// Does the trip make this stop?
    pub fn has(&self, wanted: &Stop) -> (r: bool)
        ensures
            r == stop_views(self.stops@).contains(wanted@),
    {
        let mut i: usize = 0;
        while i < self.stops.len()
            invariant
                i <= self.stops@.len(),
                forall|k: int| 0 <= k < i ==> self.stops@[k]@ != wanted@,
            decreases self.stops@.len() - i,
        {
            if same_stop(&self.stops[i], wanted) {
                assert(stop_views(self.stops@)[i as int] == wanted@);
                return true;
            }
            i += 1;
        }
        assert(!stop_views(self.stops@).contains(wanted@)) by {
            if stop_views(self.stops@).contains(wanted@) {
                let k = choose|k: int| 0 <= k < stop_views(self.stops@).len() && stop_views(self.stops@)[k] == wanted@;
                assert(self.stops@[k]@ == wanted@);
            }
        }
        false
    }

    /// Is a purchase on this trip at all?
    pub fn buys(&self) -> (r: bool)
        ensures
            r == exists|k: int| 0 <= k < self.stops@.len() && (#[trigger] self.stops@[k]) is Buy,
    {
        let mut i: usize = 0;
        while i < self.stops.len()
            invariant
                i <= self.stops@.len(),
                forall|k: int| 0 <= k < i ==> !((#[trigger] self.stops@[k]) is Buy),
            decreases self.stops@.len() - i,
        {
            if let Stop::Buy { .. } = &self.stops[i] {
                return true;
            }
            i += 1;
        }
        false
    }

    /// Is a sale on this trip: the stop that funds the purchase?
    pub fn sells(&self) -> (r: bool)
        ensures
            r == exists|k: int| 0 <= k < self.stops@.len() && (#[trigger] self.stops@[k]) is Sell,
    {
        let mut i: usize = 0;
        while i < self.stops.len()
            invariant
                i <= self.stops@.len(),
                forall|k: int| 0 <= k < i ==> !((#[trigger] self.stops@[k]) is Sell),
            decreases self.stops@.len() - i,
        {
            if let Stop::Sell = &self.stops[i] {
                return true;
            }
            i += 1;
        }
        false
    }
}

/// (walk, x, y) of `a` is strictly below that of `b`.
pub open spec fn leg_lt(wa: int, a: Pos, wb: int, b: Pos) -> bool {
    wa < wb || (wa == wb && (a.x < b.x || (a.x == b.x && a.y < b.y)))
}

/// The stand of `stands` with the shortest walk from `from`, then the
/// smallest x, then the smallest y (the first of equals), with its walk.
pub open spec fn best_stand(turn: &Turn, from: Pos, stands: Seq<Pos>) -> Option<(Pos, int)>
    decreases stands.len(),
{
    if stands.len() == 0 {
        None
    } else {
        let r = best_stand(turn, from, stands.drop_last());
        let m = stands.last();
        let w = spec_trip_rounds(turn, from, m);
        match r {
            None => Some((m, w)),
            Some(b) => if leg_lt(w, m, b.1, b.0) { Some((m, w)) } else { r },
        }
    }
}

/// Where a leg to `target` ends — the stand beside it the role finishes on —
/// and the ring-aware walk there; the target itself when it has no stand.
pub open spec fn spec_leg_end(turn: &Turn, from: Pos, target: Pos) -> (Pos, int) {
    match best_stand(turn, from, spec_neighbours(target).filter(land_pred(turn))) {
        Some(b) => b,
        None => (target, spec_trip_rounds(turn, from, target)),
    }
}

fn leg_end(turn: &Turn, from: Pos, target: Pos) -> (r: (Pos, i64))
    requires
        turn.wf(),
        pos_ok(from),
        pos_inner(target),
    ensures
        r.0 == spec_leg_end(turn, from, target).0,
        r.1 as int == spec_leg_end(turn, from, target).1,
        pos_ok(r.0),
        0 <= r.1 <= 4_000_001,
{
    let stands = crate::brain::stand_cells(turn, target);
    let mut best: Option<(Pos, i64)> = None;
    let mut i: usize = 0;
    while i < stands.len()
        invariant
            i <= stands@.len(),
            turn.wf(),
            pos_ok(from),
            all_pos_ok(stands@),
            match best {
                Some(b) => best_stand(turn, from, stands@.take(i as int)) == Some((b.0, b.1 as int))
                    && pos_ok(b.0) && 0 <= b.1 <= 4_000_001,
                None => best_stand(turn, from, stands@.take(i as int)) is None,
            },
        decreases stands@.len() - i,
    {
        assert(stands@.take(i as int + 1).drop_last() =~= stands@.take(i as int));
        assert(stands@.take(i as int + 1).last() == stands@[i as int]);
        let st = stands[i];
        let w = trip_rounds(turn, from, st);
        let replace = match best {
            None => true,
            Some((b, bw)) => w < bw || (w == bw && (st.x < b.x || (st.x == b.x && st.y < b.y))),
        };
        if replace {
            best = Some((st, w));
        }
        i += 1;
    }
    assert(stands@.take(stands@.len() as int) =~= stands@);
    match best {
        Some(b) => b,
        None => (target, trip_rounds(turn, from, target)),
    }
}

/// Of `targets`, the one whose leg from `from` is cheapest — by the walk,
/// then the stand's x and y, then the target's — with the stand and walk.
pub open spec fn spec_nearest_by_trip(turn: &Turn, from: Pos, targets: Seq<Pos>) -> Option<(Pos, Pos, int)>
    decreases targets.len(),
{
    if targets.len() == 0 {
        None
    } else {
        let r = spec_nearest_by_trip(turn, from, targets.drop_last());
        let t = targets.last();
        let e = spec_leg_end(turn, from, t);
        match r {
            None => Some((t, e.0, e.1)),
            Some(b) => if e.1 < b.2 || (e.1 == b.2 && (e.0.x < b.1.x || (e.0.x == b.1.x && (e.0.y < b.1.y
                || (e.0.y == b.1.y && (t.x < b.0.x || (t.x == b.0.x && t.y < b.0.y))))))) {
                Some((t, e.0, e.1))
            } else {
                r
            },
        }
    }
}

fn nearest_by_trip(turn: &Turn, from: Pos, targets: &Vec<Pos>) -> (r: Option<(Pos, Pos, i64)>)
    requires
        turn.wf(),
        pos_ok(from),
        forall|k: int| 0 <= k < targets@.len() ==> pos_inner(#[trigger] targets@[k]),
    ensures
        match r {
            Some(b) => spec_nearest_by_trip(turn, from, targets@) == Some((b.0, b.1, b.2 as int))
                && pos_ok(b.1) && 0 <= b.2 <= 4_000_001,
            None => spec_nearest_by_trip(turn, from, targets@) is None,
        },
{
    let mut best: Option<(Pos, Pos, i64)> = None;
    let mut i: usize = 0;
    while i < targets.len()
        invariant
            i <= targets@.len(),
            turn.wf(),
            pos_ok(from),
            forall|k: int| 0 <= k < targets@.len() ==> pos_inner(#[trigger] targets@[k]),
            match best {
                Some(b) => spec_nearest_by_trip(turn, from, targets@.take(i as int)) == Some((b.0, b.1, b.2 as int))
                    && pos_ok(b.1) && 0 <= b.2 <= 4_000_001,
                None => spec_nearest_by_trip(turn, from, targets@.take(i as int)) is None,
            },
        decreases targets@.len() - i,
    {
        assert(targets@.take(i as int + 1).drop_last() =~= targets@.take(i as int));
        assert(targets@.take(i as int + 1).last() == targets@[i as int]);
        let t = targets[i];
        let (st, w) = leg_end(turn, from, t);
        let replace = match best {
            None => true,
            Some((bt, bs, bw)) => w < bw || (w == bw && (st.x < bs.x || (st.x == bs.x && (st.y < bs.y
                || (st.y == bs.y && (t.x < bt.x || (t.x == bt.x && t.y < bt.y))))))),
        };
        if replace {
            best = Some((t, st, w));
        }
        i += 1;
    }
    assert(targets@.take(targets@.len() as int) =~= targets@);
    best
}

/// A trip as plain values.
pub struct OutingView {
    pub stops: Seq<StopView>,
    pub rounds: int,
    pub daylight: int,
}

impl View for Outing {
    type V = OutingView;

    open spec fn view(&self) -> OutingView {
        OutingView { stops: stop_views(self.stops@), rounds: self.rounds as int, daylight: self.daylight as int }
    }
}

pub open spec fn need_num_sum(s: Seq<Need>) -> int
    decreases s.len(),
{
    if s.len() == 0 { 0 } else { need_num_sum(s.drop_last()) + s.last().num }
}

pub open spec fn buy_items(s: Seq<Need>) -> Seq<(Item, i64)> {
    s.map_values(|n: Need| (n.name, n.num))
}

pub open spec fn free_of(role: Unit) -> int {
    if role.capacity - role.backpack@.len() > 0 { role.capacity - role.backpack@.len() } else { 0 }
}

/// The vein a trip digs, when it digs at all.
pub open spec fn trip_vein(turn: &Turn, state: &BotState, role: Unit, stone_demand: int) -> Option<(Pos, Item)> {
    match spec_choose_mine(turn, state, role, stone_demand, Seq::empty()) {
        Some(m) => Some(m),
        None => spec_choose_sellable_mine(turn, state, role, Seq::empty()),
    }
}

/// One batch worth the sale, at least one load and no more than the room.
pub open spec fn trip_loads(turn: &Turn, state: &BotState, role: Unit) -> int {
    let b = spec_sell_batch(turn, state, role);
    let f = free_of(role);
    let m = if b < f { b } else { f };
    if m > 1 { m } else { 1 }
}

/// The sale leg: when the pack holds a batch worth selling, the nearest
/// vendor by trip, with the rounds it costs (the walk and the counter).
pub open spec fn spec_sell_leg(turn: &Turn, state: &BotState, role: Unit, stone_demand: int) -> Option<(int, Pos)> {
    if spec_should_sell(turn, state, role, stone_demand) {
        match spec_nearest_by_trip(turn, role.pos, zone_cells(turn.zones@, ZoneKind::Vendor)) {
            Some(b) => Some((b.2 + 1, b.1)),
            None => None,
        }
    } else {
        None
    }
}

/// The digging leg: with nothing to cash in and room in the pack, one batch
/// at the day's vein, from where the sale left the role.
pub open spec fn spec_dig_leg(turn: &Turn, state: &BotState, role: Unit, stone_demand: int, spent: int, at: Pos)
    -> Option<(Pos, Item, int, int, Pos)> {
    if !spec_should_sell(turn, state, role, stone_demand) && free_of(role) > 0 {
        match trip_vein(turn, state, role, stone_demand) {
            Some((pos, ore)) => {
                let loads = trip_loads(turn, state, role);
                let e = spec_leg_end(turn, at, pos);
                Some((pos, ore, loads, spent + e.1 + loads, e.0))
            },
            None => None,
        }
    } else {
        None
    }
}

/// The shopping leg: the nearest shop by trip, a round per item bought.
pub open spec fn spec_buy_leg(turn: &Turn, shopping: Seq<Need>, spent: int, at: Pos) -> Option<(int, Pos)> {
    if shopping.len() > 0 {
        match spec_nearest_by_trip(turn, at, zone_cells(turn.zones@, ZoneKind::WeaponShop)) {
            Some(b) => Some((spent + b.2 + need_num_sum(shopping), b.1)),
            None => None,
        }
    } else {
        None
    }
}

pub open spec fn legs_of(sell: Option<(int, Pos)>, dig: Option<(Pos, Item, int, int, Pos)>,
    buy: Option<(int, Pos)>, items: Seq<(Item, i64)>) -> Seq<(StopView, int, Pos)> {
    (match sell { Some(l) => seq![(StopView::Sell, l.0, l.1)], None => Seq::empty() })
        + (match dig { Some(d) => seq![(StopView::Collect { pos: d.0, ore: d.1, loads: d.2 as i64 }, d.3, d.4)],
            None => Seq::empty() })
        + (match buy { Some(l) => seq![(StopView::Buy { items }, l.0, l.1)], None => Seq::empty() })
}

/// The trip's legs in walking order — cash in first when the pack holds a
/// batch worth selling, else dig one batch, then buy what the purse can pay
/// for — each with the rounds spent by its end and where the role stands.
pub open spec fn trip_legs(turn: &Turn, state: &BotState, role: Unit, shopping: Seq<Need>, stone_demand: int)
    -> Seq<(StopView, int, Pos)> {
    let sell = spec_sell_leg(turn, state, role, stone_demand);
    let (spent1, at1) = match sell { Some(l) => l, None => (0, role.pos) };
    let dig = spec_dig_leg(turn, state, role, stone_demand, spent1, at1);
    let (spent2, at2) = match dig { Some(d) => (d.3, d.4), None => (spent1, at1) };
    legs_of(sell, dig, spec_buy_leg(turn, shopping, spent2, at2), buy_items(shopping))
}

/// How many of the first legs fit the daylight with the walk home: the
/// longest such head, the tail giving way first (0 when none fits).
pub open spec fn legs_kept(turn: &Turn, legs: Seq<(StopView, int, Pos)>, home: Pos, daylight: int, k: int) -> int
    decreases k,
{
    if k <= 0 {
        0
    } else if legs[k - 1].1 + spec_trip_rounds(turn, legs[k - 1].2, home) <= daylight {
        k
    } else {
        legs_kept(turn, legs, home, daylight, k - 1)
    }
}

pub open spec fn spec_outing(turn: &Turn, state: &BotState, role: Unit, shopping: Seq<Need>, stone_demand: int)
    -> Option<OutingView> {
    match turn.spec_station() {
        None => None,
        Some(st) => {
            let home = st.pos;
            let daylight = if DUSK_ROUND - turn.in_day_round > 0 { DUSK_ROUND - turn.in_day_round } else { 0 };
            let legs = trip_legs(turn, state, role, shopping, stone_demand);
            let k = legs_kept(turn, legs, home, daylight, legs.len() as int);
            if k == 0 {
                None
            } else {
                Some(OutingView {
                    stops: legs.take(k).map_values(|l: (StopView, int, Pos)| l.0),
                    rounds: legs[k - 1].1 + spec_trip_rounds(turn, legs[k - 1].2, home),
                    daylight,
                })
            }
        },
    }
}

proof fn lemma_legs_kept(turn: &Turn, legs: Seq<(StopView, int, Pos)>, home: Pos, daylight: int, k: int)
    requires
        0 <= k <= legs.len(),
    ensures
        0 <= legs_kept(turn, legs, home, daylight, k) <= k,
    decreases k,
{
    if k > 0 {
        lemma_legs_kept(turn, legs, home, daylight, k - 1);
    }
}

fn buy_list(shopping: &[Need]) -> (r: (Vec<(Item, i64)>, i64))
    requires
        shopping@.len() <= 1_000_000,
        forall|i: int| 0 <= i < shopping@.len() ==> 0 <= (#[trigger] shopping@[i]).num <= 1_000_000_000,
    ensures
        r.0@ == buy_items(shopping@),
        r.1 == need_num_sum(shopping@),
        0 <= r.1 <= 1_000_000_000_000_000,
{
    let mut items: Vec<(Item, i64)> = Vec::new();
    let mut sum: i64 = 0;
    let mut i: usize = 0;
    while i < shopping.len()
        invariant
            i <= shopping@.len(),
            shopping@.len() <= 1_000_000,
            forall|k: int| 0 <= k < shopping@.len() ==> 0 <= (#[trigger] shopping@[k]).num <= 1_000_000_000,
            items@ == buy_items(shopping@.take(i as int)),
            sum == need_num_sum(shopping@.take(i as int)),
            0 <= sum <= i * 1_000_000_000,
        decreases shopping@.len() - i,
    {
        assert(shopping@.take(i as int + 1).drop_last() =~= shopping@.take(i as int));
        assert(buy_items(shopping@.take(i as int + 1)) =~= buy_items(shopping@.take(i as int))
            .push((shopping@[i as int].name, shopping@[i as int].num)));
        items.push((shopping[i].name, shopping[i].num));
        sum = sum + shopping[i].num;
        i += 1;
    }
    assert(shopping@.take(shopping@.len() as int) =~= shopping@);
    (items, sum)
}

/// Plan one departure from the base and back: cash the pack in first when
/// it holds a batch worth selling, otherwise dig one batch at the vein the
/// day picks, then buy the affordable list; the daylight left before dusk
/// trims the trip from the tail. `None` with no station, nothing worth
/// leaving for, or not even the first stop walkable home before dusk.
#[verifier::rlimit(40)]
pub fn outing(turn: &Turn, state: &BotState, role: &Unit, shopping: &[Need], stone_demand: i64) -> (r: Option<Outing>)
    requires
        turn.wf(),
        state.wf(),
        role.wf(),
        -1_000_000_000_000 <= stone_demand <= 1_000_000_000_000,
        shopping@.len() <= 1_000_000,
        forall|i: int| 0 <= i < shopping@.len() ==> 0 <= (#[trigger] shopping@[i]).num <= 1_000_000_000,
    ensures
        match r {
            Some(o) => spec_outing(turn, state, *role, shopping@, stone_demand as int) == Some(o@),
            None => spec_outing(turn, state, *role, shopping@, stone_demand as int) is None,
        },
{
    proof {
        crate::brain::action::base_layout::lemma_station_wf(turn);
    }
    let home = match turn.station() {
        Some(st) => st.pos,
        None => return None,
    };
    let left = DUSK_ROUND - turn.in_day_round;
    let daylight: i64 = if left > 0 { left } else { 0 };
    let ghost legs = trip_legs(turn, state, *role, shopping@, stone_demand as int);
    let sell = sell_leg(turn, state, role, stone_demand);
    let (spent1, at1): (i64, Pos) = match sell {
        Some(l) => l,
        None => (0, role.pos),
    };
    let dig = dig_leg(turn, state, role, stone_demand, spent1, at1);
    let (spent2, at2): (i64, Pos) = match dig {
        Some(d) => (d.3, d.4),
        None => (spent1, at1),
    };
    let buy = buy_leg(turn, shopping, spent2, at2);
    let items = buy_list(shopping);
    let ghost s1 = match sell { Some(l) => Some((l.0 as int, l.1)), None => None };
    let ghost d1 = match dig { Some(d) => Some((d.0, d.1, d.2 as int, d.3 as int, d.4)), None => None };
    let ghost b1 = match buy { Some(l) => Some((l.0 as int, l.1)), None => None };
    assert(s1 == spec_sell_leg(turn, state, *role, stone_demand as int));
    assert(d1 == spec_dig_leg(turn, state, *role, stone_demand as int, spent1 as int, at1));
    assert(b1 == spec_buy_leg(turn, shopping@, spent2 as int, at2));
    assert(legs == legs_of(s1, d1, b1, items.0@));
    let (mut stops, marks) = assemble(sell, dig, buy, items.0, Ghost(legs));
    assert(stop_views(stops@) =~= legs.map_values(|l: (StopView, int, Pos)| l.0));
    if stops.len() == 0 {
        return None;
    }
    let n = stops.len();
    let mut keep: usize = n;
    while keep > 0 && !leg_fits(turn, &marks, keep, home, daylight)
        invariant
            keep <= n,
            n == marks@.len(),
            n == legs.len(),
            turn.wf(),
            pos_deep(home),
            forall|k: int| 0 <= k < legs.len() ==> (#[trigger] legs[k]).1 == marks@[k].0 && legs[k].2 == marks@[k].1,
            forall|k: int| 0 <= k < marks@.len() ==> pos_ok((#[trigger] marks@[k]).1)
                && 0 <= marks@[k].0 <= 2_000_000_000_000_000_000,
            legs_kept(turn, legs, home, daylight as int, n as int) == legs_kept(turn, legs, home, daylight as int, keep as int),
        decreases keep,
    {
        keep -= 1;
    }
    if keep == 0 {
        return None;
    }
    let total = marks[keep - 1].0 + trip_rounds(turn, marks[keep - 1].1, home);
    let ghost full = stops@;
    while stops.len() > keep
        invariant
            keep <= stops@.len() <= full.len(),
            stops@ == full.take(stops@.len() as int),
        decreases stops@.len(),
    {
        stops.pop();
        assert(stops@ =~= full.take(stops@.len() as int));
    }
    let out = Outing { stops, rounds: total, daylight };
    assert(out@.stops =~= legs.take(keep as int).map_values(|l: (StopView, int, Pos)| l.0));
    Some(out)
}

fn sell_leg(turn: &Turn, state: &BotState, role: &Unit, stone_demand: i64) -> (r: Option<(i64, Pos)>)
    requires
        turn.wf(),
        state.wf(),
        role.wf(),
        -1_000_000_000_000 <= stone_demand <= 1_000_000_000_000,
    ensures
        match r {
            Some(l) => spec_sell_leg(turn, state, *role, stone_demand as int) == Some((l.0 as int, l.1))
                && 0 <= l.0 <= 4_000_002 && pos_ok(l.1),
            None => spec_sell_leg(turn, state, *role, stone_demand as int) is None,
        },
{
    if !should_sell(turn, state, role, stone_demand) {
        return None;
    }
    let vendors = turn.vendors();
    proof {
        lemma_zone_cells_inner(turn.zones@, ZoneKind::Vendor);
    }
    match nearest_by_trip(turn, role.pos, &vendors) {
        Some((_, stand, walk)) => Some((walk + 1, stand)),
        None => None,
    }
}

fn dig_leg(turn: &Turn, state: &BotState, role: &Unit, stone_demand: i64, spent: i64, at: Pos)
    -> (r: Option<(Pos, Item, i64, i64, Pos)>)
    requires
        turn.wf(),
        state.wf(),
        role.wf(),
        -1_000_000_000_000 <= stone_demand <= 1_000_000_000_000,
        0 <= spent <= 4_000_002,
        pos_ok(at),
    ensures
        match r {
            Some(d) => spec_dig_leg(turn, state, *role, stone_demand as int, spent as int, at)
                == Some((d.0, d.1, d.2 as int, d.3 as int, d.4))
                && 0 <= d.3 <= 9_000_000 && pos_ok(d.4),
            None => spec_dig_leg(turn, state, *role, stone_demand as int, spent as int, at) is None,
        },
{
    let free = free_slots(role);
    if should_sell(turn, state, role, stone_demand) || free <= 0 {
        return None;
    }
    let none: Vec<Pos> = Vec::new();
    assert(none@ =~= Seq::<Pos>::empty());
    let vein = match choose_mine(turn, state, role, stone_demand, &none) {
        Some(m) => Some(m),
        None => choose_sellable_mine(turn, state, role, &none),
    };
    assert(vein == trip_vein(turn, state, *role, stone_demand as int));
    match vein {
        Some((pos, ore)) => {
            let b = sell_batch(turn, state, role);
            let m = if b < free { b } else { free };
            let loads = if m > 1 { m } else { 1 };
            assert(loads == trip_loads(turn, state, *role));
            let (stand, walk) = leg_end(turn, at, pos);
            Some((pos, ore, loads, spent + walk + loads, stand))
        },
        None => None,
    }
}

fn buy_leg(turn: &Turn, shopping: &[Need], spent: i64, at: Pos) -> (r: Option<(i64, Pos)>)
    requires
        turn.wf(),
        0 <= spent <= 9_000_000,
        pos_ok(at),
        shopping@.len() <= 1_000_000,
        forall|i: int| 0 <= i < shopping@.len() ==> 0 <= (#[trigger] shopping@[i]).num <= 1_000_000_000,
    ensures
        match r {
            Some(l) => spec_buy_leg(turn, shopping@, spent as int, at) == Some((l.0 as int, l.1))
                && 0 <= l.0 <= 2_000_000_000_000_000_000 && pos_ok(l.1),
            None => spec_buy_leg(turn, shopping@, spent as int, at) is None,
        },
{
    if shopping.len() == 0 {
        return None;
    }
    let shops = turn.weapon_shops();
    proof {
        lemma_zone_cells_inner(turn.zones@, ZoneKind::WeaponShop);
    }
    match nearest_by_trip(turn, at, &shops) {
        Some((_, stand, walk)) => {
            let (_, sum) = buy_list(shopping);
            Some((spent + walk + sum, stand))
        },
        None => None,
    }
}

fn assemble(sell: Option<(i64, Pos)>, dig: Option<(Pos, Item, i64, i64, Pos)>, buy: Option<(i64, Pos)>,
    items: Vec<(Item, i64)>, Ghost(legs): Ghost<Seq<(StopView, int, Pos)>>) -> (r: (Vec<Stop>, Vec<(i64, Pos)>))
    requires
        sell matches Some(l) ==> 0 <= l.0 <= 2_000_000_000_000_000_000 && pos_ok(l.1),
        dig matches Some(d) ==> 0 <= d.3 <= 2_000_000_000_000_000_000 && pos_ok(d.4),
        buy matches Some(l) ==> 0 <= l.0 <= 2_000_000_000_000_000_000 && pos_ok(l.1),
        legs == legs_of(
            match sell { Some(l) => Some((l.0 as int, l.1)), None => None },
            match dig { Some(d) => Some((d.0, d.1, d.2 as int, d.3 as int, d.4)), None => None },
            match buy { Some(l) => Some((l.0 as int, l.1)), None => None },
            items@),
    ensures
        r.0@.len() == legs.len(),
        r.1@.len() == legs.len(),
        forall|k: int| 0 <= k < legs.len() ==> (#[trigger] legs[k]).0 == r.0@[k]@
            && legs[k].1 == r.1@[k].0 && legs[k].2 == r.1@[k].1,
        forall|k: int| 0 <= k < r.1@.len() ==> pos_ok((#[trigger] r.1@[k]).1)
            && 0 <= r.1@[k].0 <= 2_000_000_000_000_000_000,
{
    let ghost items_v = items@;
    let mut stops: Vec<Stop> = Vec::new();
    let mut marks: Vec<(i64, Pos)> = Vec::new();
    if let Some(l) = sell {
        stops.push(Stop::Sell);
        marks.push(l);
    }
    if let Some(d) = dig {
        stops.push(Stop::Collect { pos: d.0, ore: d.1, loads: d.2 });
        marks.push((d.3, d.4));
    }
    if let Some(l) = buy {
        stops.push(Stop::Buy { items });
        marks.push(l);
    }
    proof {
        assert(legs.len() == stops@.len());
        assert forall|k: int| 0 <= k < legs.len() implies (#[trigger] legs[k]).0 == stops@[k]@
            && legs[k].1 == marks@[k].0 && legs[k].2 == marks@[k].1 by {
        }
    }
    (stops, marks)
}

fn leg_fits(turn: &Turn, marks: &Vec<(i64, Pos)>, keep: usize, home: Pos, daylight: i64) -> (r: bool)
    requires
        turn.wf(),
        0 < keep <= marks@.len(),
        crate::model::pos_deep(home),
        forall|k: int| 0 <= k < marks@.len() ==> pos_ok((#[trigger] marks@[k]).1)
            && 0 <= marks@[k].0 <= 2_000_000_000_000_000_000,
    ensures
        r == (marks@[keep - 1].0 + spec_trip_rounds(turn, marks@[keep - 1].1, home) <= daylight),
{
    let (rounds, after) = marks[keep - 1];
    rounds + trip_rounds(turn, after, home) <= daylight
}

} // verus!
