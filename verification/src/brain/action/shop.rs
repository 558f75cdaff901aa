//! Shop: the buyer's craft — medicine, provisioning, the shop walks, summon
//! orders, vouchers and the fixed buy whitelist. Nothing outside the
//! whitelist is ever bought; the two entries that do not rank in it are the
//! WallFixer surplus conversion and the Medicine a wounded role buys for
//! itself.

use vstd::prelude::*;
use crate::model::{Pos, Turn, Unit, UnitKind, Item, ZoneKind, zone_cells, spec_max_hp, price_in, pos_ok,
    pos_inner, all_pos_ok, cheb, chebyshev, count_in, spec_neighbours};
use crate::protocol::RoleCommand;
use crate::state::BotState;
use crate::brain::{land_pred, walk_toward, stand_cells, walk_result};
use crate::brain::economy::{Need, DUSK_ROUND, READINESS_LEAD, stands_of, team_count, stock_of, count_where,
    census, census_of, tower_at, lemma_count_step, lemma_zone_cells_inner, voucher_target, voucher_best,
    held_vouchers, voucher_order};
use crate::brain::combat::{spec_station_max_hp, station_max_hp};
use crate::brain::action::base_layout::{front_wall_cells, side_wall_cells};
use crate::brain::action::fight::WITHDRAW_HEALTH_TENTHS;

verus! {

/// Max HP of a controllable role, or `None` when the unit is not one.
pub fn max_hp(role: &Unit) -> (r: Option<i64>)
    ensures
        match r {
            Some(h) => spec_max_hp(role.kind) == Some(h as int),
            None => spec_max_hp(role.kind) is None,
        },
{
    match role.kind {
        UnitKind::Worker => Some(220),
        UnitKind::Pioneer => Some(200),
        _ => None,
    }
}

pub open spec fn spec_use_medicine(role: Unit) -> Option<RoleCommand> {
    match spec_max_hp(role.kind) {
        Some(m) => if role.health * 10 < m * 3 && role.spec_count(Item::Medicine) > 0 {
            Some(RoleCommand::Use(Item::Medicine))
        } else {
            None
        },
        None => None,
    }
}

/// Heal when badly hurt: below 30% of the maximum, with a Medicine in hand.
pub fn use_medicine(role: &Unit) -> (r: Option<RoleCommand>)
    requires
        role.wf(),
    ensures
        r == spec_use_medicine(*role),
{
    let m = match max_hp(role) {
        Some(m) => m,
        None => return None,
    };
    if role.health * 10 < m * 3 && role.count_item(Item::Medicine) > 0 {
        return Some(RoleCommand::Use(Item::Medicine));
    }
    None
}

/// Walkable cells around each of `targets`, in order.
pub fn stands_around(turn: &Turn, targets: &Vec<Pos>) -> (r: Vec<Pos>)
    requires
        forall|k: int| 0 <= k < targets@.len() ==> pos_inner(#[trigger] targets@[k]),
    ensures
        r@ == stands_of(turn, targets@),
        all_pos_ok(r@),
{
    let mut out: Vec<Pos> = Vec::new();
    let mut t: usize = 0;
    while t < targets.len()
        invariant
            t <= targets@.len(),
            forall|k: int| 0 <= k < targets@.len() ==> pos_inner(#[trigger] targets@[k]),
            out@ == stands_of(turn, targets@.take(t as int)),
            all_pos_ok(out@),
        decreases targets@.len() - t,
    {
        assert(targets@.take(t as int + 1).drop_last() =~= targets@.take(t as int));
        assert(targets@.take(t as int + 1).last() == targets@[t as int]);
        let s = stand_cells(turn, targets[t]);
        let ghost before = out@;
        let mut j: usize = 0;
        while j < s.len()
            invariant
                j <= s@.len(),
                all_pos_ok(s@),
                all_pos_ok(before),
                out@ == before + s@.take(j as int),
                all_pos_ok(out@),
            decreases s@.len() - j,
        {
            assert(before + s@.take(j as int + 1) =~= (before + s@.take(j as int)).push(s@[j as int]));
            out.push(s[j]);
            j += 1;
        }
        assert(s@.take(s@.len() as int) =~= s@);
        t += 1;
    }
    assert(targets@.take(targets@.len() as int) =~= targets@);
    out
}

/// Every stand beside a weapon shop.
pub open spec fn shop_stands(turn: &Turn) -> Seq<Pos> {
    stands_of(turn, zone_cells(turn.zones@, ZoneKind::WeaponShop))
}

fn shop_stand_cells(turn: &Turn) -> (r: Vec<Pos>)
    requires
        turn.wf(),
    ensures
        r@ == shop_stands(turn),
        all_pos_ok(r@),
{
    proof {
        lemma_zone_cells_inner(turn.zones@, ZoneKind::WeaponShop);
    }
    let shops = turn.weapon_shops();
    stands_around(turn, &shops)
}

/// Is `pos` a stand beside a weapon shop?
pub fn at_shop(turn: &Turn, pos: Pos) -> (r: bool)
    requires
        turn.wf(),
    ensures
        r == shop_stands(turn).contains(pos),
{
    let stands = shop_stand_cells(turn);
    crate::model::contains_pos(&stands, pos)
}

/// Walk to the nearest weapon shop; `None` when no shop stand is known.
pub fn walk_to_shop(turn: &Turn, role: &Unit, claimed: &mut Vec<Pos>) -> (r: Option<RoleCommand>)
    requires
        turn.wf(),
    ensures
        shop_stands(turn).len() == 0 ==> r is None && final(claimed)@ == old(claimed)@,
        shop_stands(turn).len() > 0 ==> walk_result(turn, *role, shop_stands(turn), old(claimed)@, final(claimed)@, r),
{
    let stands = shop_stand_cells(turn);
    if stands.len() == 0 {
        return None;
    }
    walk_toward(turn, role, &stands, claimed)
}

/// The Medicine price when the shop sells it at a sane price.
pub open spec fn medicine_price(turn: &Turn) -> int {
    match price_in(turn.weapon_shop@, Item::Medicine) {
        Some(p) => p as int,
        None => i64::MAX as int,
    }
}

/// A role without a Medicine, hurt (below 80%) or with the night near, and
/// a purse that covers one.
pub open spec fn provision_due(turn: &Turn, role: Unit) -> bool {
    &&& role.spec_count(Item::Medicine) == 0
    &&& spec_max_hp(role.kind) matches Some(m)
    &&& (role.health * 10 < m * 8 || turn.in_day_round >= DUSK_ROUND - READINESS_LEAD)
    &&& medicine_price(turn) > 0
    &&& medicine_price(turn) != i64::MAX
    &&& turn.gold >= medicine_price(turn)
}

/// Critically wounded: below the night's withdrawal line.
pub open spec fn critically_wounded(role: Unit) -> bool {
    spec_max_hp(role.kind) matches Some(m) && role.health * 10 < m * WITHDRAW_HEALTH_TENTHS
}

/// What `self_provision` does this round.
pub open spec fn provision_result(turn: &Turn, role: Unit, may_travel: bool, c0: Seq<Pos>, c1: Seq<Pos>,
    r: Option<RoleCommand>) -> bool {
    if !provision_due(turn, role) {
        r is None && c1 == c0
    } else if shop_stands(turn).contains(role.pos) {
        r == Some(RoleCommand::Buy(Item::Medicine, 1)) && c1 == c0
    } else if !(critically_wounded(role) && may_travel) || shop_stands(turn).len() == 0 {
        r is None && c1 == c0
    } else {
        walk_result(turn, role, shop_stands(turn), c0, c1, r)
    }
}

/// Buy a Medicine for this role: at the counter when it is due; a critically
/// wounded role that may travel walks there.
pub fn self_provision(turn: &Turn, role: &Unit, claimed: &mut Vec<Pos>, may_travel: bool) -> (r: Option<RoleCommand>)
    requires
        turn.wf(),
        role.wf(),
    ensures
        !provision_due(turn, *role) ==> r is None && final(claimed)@ == old(claimed)@,
        provision_due(turn, *role) && shop_stands(turn).contains(role.pos)
            ==> r == Some(RoleCommand::Buy(Item::Medicine, 1)) && final(claimed)@ == old(claimed)@,
        provision_due(turn, *role) && !shop_stands(turn).contains(role.pos) && !(critically_wounded(*role) && may_travel)
            ==> r is None && final(claimed)@ == old(claimed)@,
        provision_due(turn, *role) && !shop_stands(turn).contains(role.pos) && critically_wounded(*role) && may_travel
            ==> (shop_stands(turn).len() == 0 ==> r is None && final(claimed)@ == old(claimed)@)
            && (shop_stands(turn).len() > 0 ==> walk_result(turn, *role, shop_stands(turn), old(claimed)@, final(claimed)@, r)),
{
    if role.count_item(Item::Medicine) > 0 {
        return None;
    }
    let m = match max_hp(role) {
        Some(m) => m,
        None => return None,
    };
    let hurt = role.health * 10 < m * 8;
    let ready = turn.in_day_round >= DUSK_ROUND - READINESS_LEAD;
    if !hurt && !ready {
        return None;
    }
    let price = match crate::model::price_of(&turn.weapon_shop, Item::Medicine) {
        Some(p) => p,
        None => i64::MAX,
    };
    if price <= 0 || price == i64::MAX || turn.gold < price {
        return None;
    }
    if at_shop(turn, role.pos) {
        return Some(RoleCommand::Buy(Item::Medicine, 1));
    }
    let critical = role.health * 10 < m * WITHDRAW_HEALTH_TENTHS;
    if !critical || !may_travel {
        return None;
    }
    walk_to_shop(turn, role, claimed)
}

// ---------------------------------------------------------------------------
// The fixed buy whitelist
// ---------------------------------------------------------------------------

/// Live walls of `level` standing on one of `cells`.
pub open spec fn wall_on(cells: Seq<Pos>, level: i32) -> spec_fn(Unit) -> bool {
    |u: Unit| crate::model::is_live_wall(u) && u.level == level && cells.contains(u.pos)
}

fn walls_on(turn: &Turn, cells: &Vec<Pos>, level: i32) -> (n: i64)
    requires
        turn.wf(),
    ensures
        n == count_where(turn.ours@, wall_on(cells@, level)),
        0 <= n <= 10_000,
{
    let ghost f = wall_on(cells@, level);
    let mut n: i64 = 0;
    let mut i: usize = 0;
    while i < turn.ours.len()
        invariant
            i <= turn.ours@.len(),
            turn.wf(),
            f == wall_on(cells@, level),
            n == count_where(turn.ours@.take(i as int), f),
            0 <= n <= i,
        decreases turn.ours@.len() - i,
    {
        proof {
            lemma_count_step(turn.ours@, i as int, f);
        }
        let u = &turn.ours[i];
        if u.kind == UnitKind::Wall && u.health > 0 && u.level == level && crate::model::contains_pos(cells, u.pos) {
            n = n + 1;
        }
        i += 1;
    }
    assert(turn.ours@.take(turn.ours@.len() as int) =~= turn.ours@);
    n
}

/// The voucher that heals a station below its level's full HP.
pub open spec fn hurt_station_voucher(turn: &Turn) -> Option<Item> {
    match turn.spec_station() {
        Some(st) => if st.health > 0 && st.health < spec_station_max_hp(st.level) {
            if st.level == 1 { Some(Item::StationUpgradeVoucher1) }
            else if st.level == 2 { Some(Item::StationUpgradeVoucher2) }
            else { None }
        } else {
            None
        },
        None => None,
    }
}

/// The next rung of the station's level ladder.
pub open spec fn station_ladder_voucher(turn: &Turn) -> Option<Item> {
    match turn.spec_station() {
        Some(st) => if st.level == 1 { Some(Item::StationUpgradeVoucher1) }
            else if st.level == 2 { Some(Item::StationUpgradeVoucher2) }
            else { None },
        None => None,
    }
}

pub open spec fn opt_want(v: Option<Item>, reason: &'static str) -> Seq<(Item, i64, &'static str)> {
    match v {
        Some(i) => seq![(i, 1i64, reason)],
        None => Seq::empty(),
    }
}

/// Every whitelist entry with the number wanted, in the whitelist's order:
/// the hurt station's voucher, the weapon and wall vouchers sized by what
/// stands at each level (front walls before side walls), the station's
/// ladder, then the wave items.
pub open spec fn whitelist_wants(turn: &Turn) -> Seq<(Item, i64, &'static str)> {
    let c = census_of(turn.ours@);
    let front = crate::brain::action::base_layout::spec_lay(turn, crate::brain::action::base_layout::front_offsets());
    let side = crate::brain::action::base_layout::spec_lay(turn, crate::brain::action::base_layout::side_offsets());
    let bombs = 2 - team_count(turn.ours@, Item::Bomb);
    opt_want(hurt_station_voucher(turn), "station_hurt")
        + seq![
        (Item::WeaponUpgradeVoucher1, c.towers_l1, "weapon_l1"),
        (Item::WallUpgradeVoucher1, count_where(turn.ours@, wall_on(front, 1)) as i64, "front_wall_l1"),
        (Item::WeaponUpgradeVoucher2, c.towers_l2, "weapon_l2"),
        (Item::WallUpgradeVoucher2, count_where(turn.ours@, wall_on(front, 2)) as i64, "front_wall_l2"),
        (Item::WallUpgradeVoucher1, count_where(turn.ours@, wall_on(side, 1)) as i64, "side_wall_l1")]
        + opt_want(station_ladder_voucher(turn), "station_ladder")
        + seq![
        (Item::LargeRobotSummonOrder, 1i64, "summon_large"),
        (Item::Bomb, (if bombs > 0 { bombs } else { 0 }) as i64, "bomb"),
        (Item::BossRobotSummonOrder, 1i64, "summon_boss")]
}

/// A whitelist entry: ranked, with no deadline and no value.
pub open spec fn whitelist_need(name: Item, num: i64, rank: int, reason: &'static str) -> Need {
    Need { name, num, priority: rank as i32, latest_round: 0, value: 0, power: 0, per_gold: 1, reason }
}

pub open spec fn rank_push(r: Seq<Need>, w: (Item, i64, &'static str)) -> Seq<Need> {
    if w.1 > 0 { r.push(whitelist_need(w.0, w.1, r.len() as int + 1, w.2)) } else { r }
}

/// The wanted entries, ranked 1, 2, ... in order; entries wanting none are
/// left out and take no rank.
pub open spec fn ranked(s: Seq<(Item, i64, &'static str)>) -> Seq<Need>
    decreases s.len(),
{
    if s.len() == 0 { Seq::empty() } else { rank_push(ranked(s.drop_last()), s.last()) }
}

proof fn lemma_ranked_push(s: Seq<(Item, i64, &'static str)>, w: (Item, i64, &'static str))
    ensures
        ranked(s.push(w)) == rank_push(ranked(s), w),
        ranked(s).len() <= s.len(),
    decreases s.len(),
{
    assert(s.push(w).drop_last() =~= s);
    if s.len() > 0 {
        lemma_ranked_push(s.drop_last(), s.last());
        assert(s.drop_last().push(s.last()) =~= s);
    }
}

pub open spec fn sold_here(turn: &Turn) -> spec_fn(Need) -> bool {
    |n: Need| price_in(turn.weapon_shop@, n.name) is Some
}

pub open spec fn spec_fixed_buy_list(turn: &Turn) -> Seq<Need> {
    ranked(whitelist_wants(turn)).filter(sold_here(turn))
}

fn push_want(out: &mut Vec<Need>, name: Item, num: i64, reason: &'static str, Ghost(wants): Ghost<Seq<(Item, i64, &'static str)>>)
    requires
        old(out)@ == ranked(wants),
        wants.len() < 20,
    ensures
        final(out)@ == ranked(wants.push((name, num, reason))),
{
    proof {
        lemma_ranked_push(wants, (name, num, reason));
    }
    if num > 0 {
        let rank = out.len() as i32 + 1;
        out.push(Need { name, num, priority: rank, latest_round: 0, value: 0, power: 0, per_gold: 1, reason });
    }
}

/// The fixed buy whitelist, ranked in its own order and cut to what the shop
/// sells. Affordability is not decided here: the list is the want.
pub fn fixed_buy_list(turn: &Turn) -> (out: Vec<Need>)
    requires
        turn.wf(),
    ensures
        out@ == spec_fixed_buy_list(turn),
{
    let mut out: Vec<Need> = Vec::new();
    let ghost mut wants: Seq<(Item, i64, &'static str)> = Seq::empty();
    let station_lvl: Option<(i64, i32)> = match turn.station() {
        Some(st) => Some((st.health, st.level)),
        None => None,
    };
    let hurt: Option<Item> = match station_lvl {
        Some((hp, lvl)) => if hp > 0 && hp < station_max_hp(lvl) {
            if lvl == 1 { Some(Item::StationUpgradeVoucher1) } else if lvl == 2 { Some(Item::StationUpgradeVoucher2) } else { None }
        } else {
            None
        },
        None => None,
    };
    assert(hurt == hurt_station_voucher(turn));
    if let Some(v) = hurt {
        push_want(&mut out, v, 1, "station_hurt", Ghost(wants));
        proof { wants = wants.push((v, 1i64, "station_hurt")); }
    }
    assert(wants =~= opt_want(hurt_station_voucher(turn), "station_hurt"));
    let ghost w0 = wants;
    let c = census(turn);
    let front = front_wall_cells(turn);
    let side = side_wall_cells(turn);
    let f1 = walls_on(turn, &front, 1);
    let f2 = walls_on(turn, &front, 2);
    let s1 = walls_on(turn, &side, 1);
    push_want(&mut out, Item::WeaponUpgradeVoucher1, c.towers_l1, "weapon_l1", Ghost(wants));
    proof { wants = wants.push((Item::WeaponUpgradeVoucher1, c.towers_l1, "weapon_l1")); }
    push_want(&mut out, Item::WallUpgradeVoucher1, f1, "front_wall_l1", Ghost(wants));
    proof { wants = wants.push((Item::WallUpgradeVoucher1, f1, "front_wall_l1")); }
    push_want(&mut out, Item::WeaponUpgradeVoucher2, c.towers_l2, "weapon_l2", Ghost(wants));
    proof { wants = wants.push((Item::WeaponUpgradeVoucher2, c.towers_l2, "weapon_l2")); }
    push_want(&mut out, Item::WallUpgradeVoucher2, f2, "front_wall_l2", Ghost(wants));
    proof { wants = wants.push((Item::WallUpgradeVoucher2, f2, "front_wall_l2")); }
    push_want(&mut out, Item::WallUpgradeVoucher1, s1, "side_wall_l1", Ghost(wants));
    proof { wants = wants.push((Item::WallUpgradeVoucher1, s1, "side_wall_l1")); }
    let ghost w1 = wants;
    let ladder: Option<Item> = match station_lvl {
        Some((_, lvl)) => if lvl == 1 { Some(Item::StationUpgradeVoucher1) } else if lvl == 2 { Some(Item::StationUpgradeVoucher2) } else { None },
        None => None,
    };
    assert(ladder == station_ladder_voucher(turn));
    if let Some(v) = ladder {
        push_want(&mut out, v, 1, "station_ladder", Ghost(wants));
        proof { wants = wants.push((v, 1i64, "station_ladder")); }
    }
    let ghost w2 = wants;
    let bombs_held = stock_of(turn, Item::Bomb);
    let bombs: i64 = if 2 - bombs_held > 0 { 2 - bombs_held } else { 0 };
    push_want(&mut out, Item::LargeRobotSummonOrder, 1, "summon_large", Ghost(wants));
    proof { wants = wants.push((Item::LargeRobotSummonOrder, 1i64, "summon_large")); }
    push_want(&mut out, Item::Bomb, bombs, "bomb", Ghost(wants));
    proof { wants = wants.push((Item::Bomb, bombs, "bomb")); }
    push_want(&mut out, Item::BossRobotSummonOrder, 1, "summon_boss", Ghost(wants));
    proof { wants = wants.push((Item::BossRobotSummonOrder, 1i64, "summon_boss")); }
    assert(w2.subrange(0, w1.len() as int) =~= w1);
    assert(w2.subrange(w1.len() as int, w2.len() as int) =~= opt_want(station_ladder_voucher(turn), "station_ladder"));
    assert(wants =~= whitelist_wants(turn));
    let ghost pred = sold_here(turn);
    let mut kept: Vec<Need> = Vec::new();
    let mut i: usize = 0;
    while i < out.len()
        invariant
            i <= out@.len(),
            turn.wf(),
            pred == sold_here(turn),
            kept@ == out@.take(i as int).filter(pred),
        decreases out@.len() - i,
    {
        proof {
            crate::model::lemma_filter_step(out@, i as int, pred);
        }
        if crate::model::price_of(&turn.weapon_shop, out[i].name).is_some() {
            kept.push(out[i]);
        }
        i += 1;
    }
    assert(out@.take(out@.len() as int) =~= out@);
    kept
}

pub open spec fn spec_wall_fixer_surplus(turn: &Turn) -> Option<Need> {
    let cap: int = if turn.day <= 5 { 5 } else { 10 };
    let num = cap - team_count(turn.ours@, Item::WallFixer);
    if num > 0 {
        Some(Need { name: Item::WallFixer, num: num as i64, priority: i32::MAX, latest_round: 0, value: 0,
            power: 0, per_gold: 1, reason: "surplus_fixer" })
    } else {
        None
    }
}

/// The WallFixer surplus conversion: repair kits up to a team stock of five
/// through day five and ten from day six; `None` at the cap.
pub fn wall_fixer_surplus(turn: &Turn) -> (r: Option<Need>)
    requires
        turn.wf(),
    ensures
        r == spec_wall_fixer_surplus(turn),
{
    let cap: i64 = if turn.day <= 5 { 5 } else { 10 };
    let num = cap - stock_of(turn, Item::WallFixer);
    if num > 0 {
        Some(Need { name: Item::WallFixer, num, priority: i32::MAX, latest_round: 0, value: 0, power: 0,
            per_gold: 1, reason: "surplus_fixer" })
    } else {
        None
    }
}

/// How many of `n` fit both the free slots and the spendable gold at the
/// shop's price, if the shop sells it.
pub open spec fn affordable_of(turn: &Turn, spendable: int, free: int, n: Need) -> Option<(Item, int)> {
    match price_in(turn.weapon_shop@, n.name) {
        None => None,
        Some(price) => {
            let per = if price > 1 { price as int } else { 1 };
            let a = if n.num < free { n.num as int } else { free };
            let num = if a < spendable / per { a } else { spendable / per };
            if price > 0 && num > 0 { Some((n.name, num)) } else { None }
        },
    }
}

/// The first entry of `s` that is affordable.
pub open spec fn first_affordable(turn: &Turn, spendable: int, free: int, s: Seq<Need>) -> Option<(Item, int)>
    decreases s.len(),
{
    if s.len() == 0 {
        None
    } else {
        match affordable_of(turn, spendable, free, s[0]) {
            Some(b) => Some(b),
            None => first_affordable(turn, spendable, free, s.subrange(1, s.len() as int)),
        }
    }
}

pub open spec fn spendable_gold(turn: &Turn, reserve: int) -> int {
    if turn.gold - reserve > 0 { turn.gold - reserve } else { 0 }
}

pub open spec fn spec_buy_first_affordable(turn: &Turn, reserve: int, role: Unit, list: Seq<Need>) -> Option<RoleCommand> {
    let spendable = spendable_gold(turn, reserve);
    let free = role.capacity - role.backpack@.len();
    match first_affordable(turn, spendable, free, list) {
        Some((name, num)) => Some(RoleCommand::Buy(name, num as i64)),
        None => match spec_wall_fixer_surplus(turn) {
            Some(fixer) => match affordable_of(turn, spendable, free, fixer) {
                Some((name, num)) => Some(RoleCommand::Buy(name, num as i64)),
                None => None,
            },
            None => None,
        },
    }
}

fn affordable_now(turn: &Turn, spendable: i64, free: i64, n: &Need) -> (r: Option<(Item, i64)>)
    requires
        turn.wf(),
        0 <= spendable <= 2_000_000_000,
        -2_000_000 <= free <= 2_000_000,
    ensures
        match r {
            Some((name, num)) => affordable_of(turn, spendable as int, free as int, *n) == Some((name, num as int)),
            None => affordable_of(turn, spendable as int, free as int, *n) is None,
        },
{
    let price = match crate::model::price_of(&turn.weapon_shop, n.name) {
        Some(p) => p,
        None => return None,
    };
    let per: i64 = if price > 1 { price } else { 1 };
    let a: i64 = if n.num < free { n.num } else { free };
    let q = spendable / per;
    let num: i64 = if a < q { a } else { q };
    if price > 0 && num > 0 { Some((n.name, num)) } else { None }
}

/// At the counter: buy the first affordable whitelist entry, measured
/// against the gold above `reserve` and the free backpack slots; only when
/// none is affordable, convert the surplus into WallFixer kits.
pub fn buy_first_affordable(turn: &Turn, reserve: i64, role: &Unit, list: &[Need]) -> (r: Option<RoleCommand>)
    requires
        turn.wf(),
        role.wf(),
        0 <= reserve <= 1_000_000_000,
    ensures
        r == spec_buy_first_affordable(turn, reserve as int, *role, list@),
{
    let spendable: i64 = if turn.gold - reserve > 0 { turn.gold - reserve } else { 0 };
    let free: i64 = role.capacity - role.backpack.len() as i64;
    assert(list@.subrange(0, list@.len() as int) =~= list@);
    let mut i: usize = 0;
    while i < list.len()
        invariant
            i <= list@.len(),
            turn.wf(),
            0 <= spendable <= 2_000_000_000,
            -2_000_000 <= free <= 2_000_000,
            spendable as int == spendable_gold(turn, reserve as int),
            free as int == role.capacity - role.backpack@.len(),
            first_affordable(turn, spendable as int, free as int, list@)
                == first_affordable(turn, spendable as int, free as int, list@.subrange(i as int, list@.len() as int)),
        decreases list@.len() - i,
    {
        let ghost rest = list@.subrange(i as int, list@.len() as int);
        assert(rest[0] == list@[i as int]);
        assert(rest.subrange(1, rest.len() as int) =~= list@.subrange(i as int + 1, list@.len() as int));
        match affordable_now(turn, spendable, free, &list[i]) {
            Some((name, num)) => {
                assert(first_affordable(turn, spendable as int, free as int, rest) == Some((name, num as int)));
                return Some(RoleCommand::Buy(name, num));
            },
            None => {},
        }
        i += 1;
    }
    match wall_fixer_surplus(turn) {
        Some(fixer) => match affordable_now(turn, spendable, free, &fixer) {
            Some((name, num)) => Some(RoleCommand::Buy(name, num)),
            None => None,
        },
        None => None,
    }
}

/// The summon orders, biggest wave first.
pub open spec fn summon_orders() -> Seq<Item> {
    seq![Item::BossRobotSummonOrder, Item::LargeRobotSummonOrder, Item::MiddleRobotSummonOrder,
        Item::SmallRobotSummonOrder]
}

/// The first summon order the role carries, biggest wave first.
pub open spec fn first_order(role: Unit) -> Option<Item> {
    let held = summon_orders().filter(|i: Item| count_in(role.backpack@, i) > 0);
    if held.len() > 0 { Some(held[0]) } else { None }
}

/// Under the daily budget and carrying an order, the order to burn.
pub open spec fn spec_summon_burn(state: &BotState, role: Unit) -> Option<Item> {
    if state.summon_orders_today < 10 { first_order(role) } else { None }
}

/// Everything in the planners' memory but the summon budget and the
/// harassment flag is as it was.
pub open spec fn same_but_summons(a: &BotState, b: &BotState) -> bool {
    &&& a.blacklisted_builds@ == b.blacklisted_builds@
    &&& a.ring_ever_complete == b.ring_ever_complete
    &&& a.threatened@ == b.threatened@
    &&& a.base_prices@ == b.base_prices@
    &&& a.outages@ == b.outages@
    &&& a.outlooks@ == b.outlooks@
    &&& a.coach == b.coach
    &&& a.pioneer_night_backup == b.pioneer_night_backup
    &&& a.task_active == b.task_active
    &&& a.buy_deadline == b.buy_deadline
    &&& a.walls_built_today == b.walls_built_today
    &&& a.walled_cells_today@ == b.walled_cells_today@
    &&& a.wall_vein_latch == b.wall_vein_latch
    &&& a.vein_latch == b.vein_latch
    &&& a.vein_hits@ == b.vein_hits@
    &&& a.withdraw_holdout@ == b.withdraw_holdout@
    &&& a.withdraw_last_threat@ == b.withdraw_last_threat@
    &&& a.d1_weapon_helped == b.d1_weapon_helped
    &&& a.news == b.news
}

fn carried_order(role: &Unit) -> (r: Option<Item>)
    requires
        role.wf(),
    ensures
        r == first_order(*role),
{
    let ghost pred = |i: Item| count_in(role.backpack@, i) > 0;
    let ghost held = summon_orders().filter(pred);
    proof {
        reveal_with_fuel(Seq::filter, 5);
        assert(summon_orders().drop_last().drop_last().drop_last().drop_last() =~= Seq::<Item>::empty());
        assert(summon_orders().drop_last().drop_last().drop_last() =~= seq![Item::BossRobotSummonOrder]);
        assert(summon_orders().drop_last().drop_last() =~= seq![Item::BossRobotSummonOrder, Item::LargeRobotSummonOrder]);
        assert(summon_orders().drop_last() =~= seq![Item::BossRobotSummonOrder, Item::LargeRobotSummonOrder,
            Item::MiddleRobotSummonOrder]);
    }
    if role.count_item(Item::BossRobotSummonOrder) > 0 {
        return Some(Item::BossRobotSummonOrder);
    }
    if role.count_item(Item::LargeRobotSummonOrder) > 0 {
        return Some(Item::LargeRobotSummonOrder);
    }
    if role.count_item(Item::MiddleRobotSummonOrder) > 0 {
        return Some(Item::MiddleRobotSummonOrder);
    }
    if role.count_item(Item::SmallRobotSummonOrder) > 0 {
        return Some(Item::SmallRobotSummonOrder);
    }
    None
}

/// Burn a carried summon order against the enemy, one per round, biggest
/// wave first, under the daily budget of ten. A burn is counted and marks
/// the day's harassment done.
pub fn burn_summon_order(state: &mut BotState, role: &Unit) -> (r: Option<RoleCommand>)
    requires
        role.wf(),
        old(state).wf(),
    ensures
        same_but_summons(old(state), final(state)),
        final(state).wf(),
        match spec_summon_burn(old(state), *role) {
            Some(order) => r == Some(RoleCommand::Use(order))
                && final(state).summon_orders_today == old(state).summon_orders_today + 1
                && final(state).harass_done_today,
            None => r is None && final(state).summon_orders_today == old(state).summon_orders_today
                && final(state).harass_done_today == old(state).harass_done_today,
        },
{
    if state.summon_orders_today >= 10 {
        return None;
    }
    match carried_order(role) {
        Some(order) => {
            state.consume_summon_order();
            state.harass_done_today = true;
            Some(RoleCommand::Use(order))
        },
        None => None,
    }
}

/// The first carried voucher that has a building to upgrade, with it.
pub open spec fn first_voucher_target(role: Unit, ours: Seq<Unit>, vs: Seq<Item>) -> Option<(Item, Pos)>
    decreases vs.len(),
{
    if vs.len() == 0 {
        None
    } else {
        match voucher_best(role, vs[0], ours) {
            Some(t) => Some((vs[0], t)),
            None => first_voucher_target(role, ours, vs.subrange(1, vs.len() as int)),
        }
    }
}

pub open spec fn voucher_job(turn: &Turn, role: Unit) -> Option<(Item, Pos)> {
    first_voucher_target(role, turn.ours@, voucher_order().filter(|i: Item| count_in(role.backpack@, i) > 0))
}

proof fn lemma_voucher_best_deep(role: Unit, v: Item, s: Seq<Unit>)
    requires
        crate::model::units_wf(s),
    ensures
        voucher_best(role, v, s) matches Some(p) ==> crate::model::pos_deep(p),
    decreases s.len(),
{
    if s.len() > 0 {
        assert(crate::model::units_wf(s.drop_last())) by {
            assert forall|i: int| 0 <= i < s.drop_last().len() implies (#[trigger] s.drop_last()[i]).wf() by {
                assert(s.drop_last()[i] == s[i]);
            }
        }
        lemma_voucher_best_deep(role, v, s.drop_last());
        assert(s[s.len() - 1].wf());
    }
}

proof fn lemma_voucher_best_all_deep(role: Unit, s: Seq<Unit>)
    requires
        crate::model::units_wf(s),
    ensures
        forall|v: Item| (#[trigger] voucher_best(role, v, s)) is Some ==> crate::model::pos_deep(voucher_best(role, v, s)->0),
{
    assert forall|v: Item| (#[trigger] voucher_best(role, v, s)) is Some implies crate::model::pos_deep(voucher_best(role, v, s)->0) by {
        lemma_voucher_best_deep(role, v, s);
    }
}

/// What `voucher_flow` does this round.
pub open spec fn voucher_result(turn: &Turn, role: Unit, c0: Seq<Pos>, c1: Seq<Pos>, r: Option<RoleCommand>) -> bool {
    match voucher_job(turn, role) {
        None => r is None && c1 == c0,
        Some((v, t)) => if cheb(role.pos, t) <= 1 {
            r == Some(RoleCommand::UseAt(v, t)) && c1 == c0
        } else {
            walk_result(turn, role, spec_neighbours(t).filter(land_pred(turn)), c0, c1, r)
        },
    }
}

/// What `burn_summon_order` does to the memory and the round.
pub open spec fn burn_result(s0: &BotState, s1: &BotState, role: Unit, r: Option<RoleCommand>) -> bool {
    &&& same_but_summons(s0, s1)
    &&& match spec_summon_burn(s0, role) {
        Some(order) => r == Some(RoleCommand::Use(order))
            && s1.summon_orders_today == s0.summon_orders_today + 1 && s1.harass_done_today,
        None => r is None && s1.summon_orders_today == s0.summon_orders_today
            && s1.harass_done_today == s0.harass_done_today,
    }
}

/// Walk to a building a carried voucher upgrades and apply it there.
pub fn voucher_flow(turn: &Turn, role: &Unit, claimed: &mut Vec<Pos>) -> (r: Option<RoleCommand>)
    requires
        turn.wf(),
        role.wf(),
    ensures
        match voucher_job(turn, *role) {
            None => r is None && final(claimed)@ == old(claimed)@,
            Some((v, t)) => if cheb(role.pos, t) <= 1 {
                r == Some(RoleCommand::UseAt(v, t)) && final(claimed)@ == old(claimed)@
            } else {
                walk_result(turn, *role, spec_neighbours(t).filter(land_pred(turn)), old(claimed)@, final(claimed)@, r)
            },
        },
{
    let held = held_vouchers(role);
    assert(held@.subrange(0, held@.len() as int) =~= held@);
    proof {
        lemma_voucher_best_all_deep(*role, turn.ours@);
    }
    let mut i: usize = 0;
    while i < held.len()
        invariant
            i <= held@.len(),
            turn.wf(),
            role.wf(),
            held@ == voucher_order().filter(|i: Item| count_in(role.backpack@, i) > 0),
            voucher_job(turn, *role) == first_voucher_target(*role, turn.ours@, held@.subrange(i as int, held@.len() as int)),
            claimed@ == old(claimed)@,
            forall|v: Item| (#[trigger] voucher_best(*role, v, turn.ours@)) is Some ==> crate::model::pos_deep(voucher_best(*role, v, turn.ours@)->0),
        decreases held@.len() - i,
    {
        let ghost rest = held@.subrange(i as int, held@.len() as int);
        assert(rest[0] == held@[i as int]);
        assert(rest.subrange(1, rest.len() as int) =~= held@.subrange(i as int + 1, held@.len() as int));
        let v = held[i];
        match voucher_target(turn, role, v) {
            Some(t) => {
                if chebyshev(role.pos, t) <= 1 {
                    return Some(RoleCommand::UseAt(v, t));
                }
                let stands = stand_cells(turn, t);
                return walk_toward(turn, role, &stands, claimed);
            },
            None => {},
        }
        i += 1;
    }
    None
}

} // verus!
