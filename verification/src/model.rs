//! The board as the planners read it: positions, units, robots, zones and the
//! per-round view of the match (`Turn`).
//!
//! Every value the logic reads is a plain value here: item names are the
//! `Item` enum, price tables are association lists, and unit sets are
//! vectors. The spec functions below are the model the contracts of the whole
//! library are written against.

use vstd::prelude::*;

verus! {

/// Coordinates are small map cells; this bound keeps every difference and
/// product of two coordinates inside `i64` and every distance inside `i32`.
pub const COORD_LIMIT: i32 = 1_000_000;

/// A map cell. `y` grows "up" the map.
#[derive(Clone, Copy, Debug, PartialEq, Eq, Structural)]
pub struct Pos {
    pub x: i32,
    pub y: i32,
}

pub open spec fn pos_ok(p: Pos) -> bool {
    -COORD_LIMIT <= p.x <= COORD_LIMIT && -COORD_LIMIT <= p.y <= COORD_LIMIT
}

pub open spec fn all_pos_ok(s: Seq<Pos>) -> bool {
    forall|i: int| 0 <= i < s.len() ==> pos_ok(#[trigger] s[i])
}

pub open spec fn abs_int(v: int) -> int {
    if v < 0 { -v } else { v }
}

/// Chebyshev (king-move) distance.
pub open spec fn cheb(a: Pos, b: Pos) -> int {
    let dx = abs_int(a.x - b.x);
    let dy = abs_int(a.y - b.y);
    if dx >= dy { dx } else { dy }
}

/// Chebyshev distance between two cells.
pub fn chebyshev(a: Pos, b: Pos) -> (d: i32)
    requires
        pos_ok(a),
        pos_ok(b),
    ensures
        d == cheb(a, b),
        0 <= d <= 2 * COORD_LIMIT,
{
    let dx = if a.x >= b.x { a.x - b.x } else { b.x - a.x };
    let dy = if a.y >= b.y { a.y - b.y } else { b.y - a.y };
    if dx >= dy { dx } else { dy }
}

/// The station's 2×2 footprint: `{x, x+1} × {y-1, y}` around its position.
pub open spec fn spec_station_footprint(p: Pos) -> Seq<Pos> {
    seq![
        Pos { x: p.x, y: p.y },
        Pos { x: (p.x + 1) as i32, y: p.y },
        Pos { x: p.x, y: (p.y - 1) as i32 },
        Pos { x: (p.x + 1) as i32, y: (p.y - 1) as i32 },
    ]
}

pub open spec fn pos_inner(p: Pos) -> bool {
    -COORD_LIMIT + 2 <= p.x <= COORD_LIMIT - 2 && -COORD_LIMIT + 2 <= p.y <= COORD_LIMIT - 2
}

/// Unit positions keep a wide margin from the coordinate limit, so every cell
/// of the layout laid around them stays in range too.
pub open spec fn pos_deep(p: Pos) -> bool {
    -COORD_LIMIT + 16 <= p.x <= COORD_LIMIT - 16 && -COORD_LIMIT + 16 <= p.y <= COORD_LIMIT - 16
}

/// The four cells a station at `p` covers.
pub fn station_footprint(p: Pos) -> (fp: Vec<Pos>)
    requires
        pos_inner(p),
    ensures
        fp@ == spec_station_footprint(p),
        all_pos_ok(fp@),
{
    let v = vec![
        Pos { x: p.x, y: p.y },
        Pos { x: p.x + 1, y: p.y },
        Pos { x: p.x, y: p.y - 1 },
        Pos { x: p.x + 1, y: p.y - 1 },
    ];
    assert(v@ =~= spec_station_footprint(p));
    v
}

/// Distance from `p` to the nearest cell of `fp` (`i32::MAX` for an empty
/// footprint).
pub open spec fn fp_dist(p: Pos, fp: Seq<Pos>) -> int
    decreases fp.len(),
{
    if fp.len() == 0 {
        i32::MAX as int
    } else {
        let rest = fp_dist(p, fp.drop_last());
        let here = cheb(p, fp.last());
        if here < rest { here } else { rest }
    }
}

pub proof fn lemma_fp_dist_le(p: Pos, fp: Seq<Pos>, i: int)
    requires
        0 <= i < fp.len(),
    ensures
        fp_dist(p, fp) <= cheb(p, fp[i]),
    decreases fp.len(),
{
    if i < fp.len() - 1 {
        lemma_fp_dist_le(p, fp.drop_last(), i);
    }
}

pub proof fn lemma_fp_dist_attained(p: Pos, fp: Seq<Pos>)
    requires
        fp.len() > 0,
        pos_ok(p),
        all_pos_ok(fp),
    ensures
        exists|i: int| 0 <= i < fp.len() && fp_dist(p, fp) == cheb(p, #[trigger] fp[i]),
    decreases fp.len(),
{
    if fp.len() == 1 {
        assert(fp_dist(p, fp.drop_last()) == i32::MAX as int);
        assert(fp_dist(p, fp) == cheb(p, fp[0]));
    } else {
        assert(all_pos_ok(fp.drop_last())) by {
            assert forall|k: int| 0 <= k < fp.drop_last().len() implies pos_ok(#[trigger] fp.drop_last()[k]) by {
                assert(fp.drop_last()[k] == fp[k]);
            }
        }
        lemma_fp_dist_attained(p, fp.drop_last());
        let i = choose|i: int| 0 <= i < fp.drop_last().len() && fp_dist(p, fp.drop_last()) == cheb(p, #[trigger] fp.drop_last()[i]);
        if cheb(p, fp.last()) < fp_dist(p, fp.drop_last()) {
            assert(fp_dist(p, fp) == cheb(p, fp[fp.len() - 1]));
        } else {
            assert(fp_dist(p, fp) == cheb(p, fp[i]));
        }
    }
}

/// Footprint distance: the Chebyshev distance from `p` to the nearest cell of
/// `fp`.
pub fn footprint_distance(p: Pos, fp: &[Pos]) -> (d: i32)
    requires
        pos_ok(p),
        all_pos_ok(fp@),
    ensures
        d == fp_dist(p, fp@),
        fp@.len() > 0 ==> 0 <= d <= 2 * COORD_LIMIT,
{
    let mut best: i32 = i32::MAX;
    let mut i: usize = 0;
    while i < fp.len()
        invariant
            i <= fp@.len(),
            pos_ok(p),
            all_pos_ok(fp@),
            best == fp_dist(p, fp@.take(i as int)),
            i > 0 ==> 0 <= best <= 2 * COORD_LIMIT,
        decreases fp@.len() - i,
    {
        assert(fp@.take(i as int + 1).drop_last() =~= fp@.take(i as int));
        let d = chebyshev(p, fp[i]);
        if d < best {
            best = d;
        }
        i += 1;
    }
    assert(fp@.take(fp@.len() as int) =~= fp@);
    best
}

/// The eight neighbours of `p`, x-major.
pub open spec fn spec_neighbours(p: Pos) -> Seq<Pos> {
    seq![
        Pos { x: (p.x - 1) as i32, y: (p.y - 1) as i32 },
        Pos { x: (p.x - 1) as i32, y: p.y },
        Pos { x: (p.x - 1) as i32, y: (p.y + 1) as i32 },
        Pos { x: p.x, y: (p.y - 1) as i32 },
        Pos { x: p.x, y: (p.y + 1) as i32 },
        Pos { x: (p.x + 1) as i32, y: (p.y - 1) as i32 },
        Pos { x: (p.x + 1) as i32, y: p.y },
        Pos { x: (p.x + 1) as i32, y: (p.y + 1) as i32 },
    ]
}

/// The eight cells at Chebyshev distance 1 from `p`.
pub fn neighbours(p: Pos) -> (n: Vec<Pos>)
    requires
        pos_inner(p),
    ensures
        n@ == spec_neighbours(p),
        all_pos_ok(n@),
{
    let v = vec![
        Pos { x: p.x - 1, y: p.y - 1 },
        Pos { x: p.x - 1, y: p.y },
        Pos { x: p.x - 1, y: p.y + 1 },
        Pos { x: p.x, y: p.y - 1 },
        Pos { x: p.x, y: p.y + 1 },
        Pos { x: p.x + 1, y: p.y - 1 },
        Pos { x: p.x + 1, y: p.y },
        Pos { x: p.x + 1, y: p.y + 1 },
    ];
    assert(v@ =~= spec_neighbours(p));
    v
}

/// Does `s` hold `p`?
pub fn contains_pos(s: &[Pos], p: Pos) -> (r: bool)
    ensures
        r == s@.contains(p),
{
    let mut i: usize = 0;
    while i < s.len()
        invariant
            i <= s@.len(),
            forall|j: int| 0 <= j < i ==> s@[j] != p,
        decreases s@.len() - i,
    {
        if s[i] == p {
            assert(s@[i as int] == p);
            return true;
        }
        i += 1;
    }
    false
}

/// Everything a backpack can hold or a shop can sell.
#[derive(Clone, Copy, Debug, PartialEq, Eq, Structural)]
pub enum Item {
    Stone,
    Iron,
    Copper,
    Medicine,
    WallFixer,
    Bomb,
    DizzyWeapon,
    WeaponUpgradeVoucher1,
    WeaponUpgradeVoucher2,
    StationUpgradeVoucher1,
    StationUpgradeVoucher2,
    WallUpgradeVoucher1,
    WallUpgradeVoucher2,
    BossRobotSummonOrder,
    LargeRobotSummonOrder,
    MiddleRobotSummonOrder,
    SmallRobotSummonOrder,
    Other,
}

impl Item {
    pub open spec fn spec_name(self) -> Seq<char> {
        match self {
            Item::Stone => "stone"@,
            Item::Iron => "iron"@,
            Item::Copper => "copper"@,
            Item::Medicine => "Medicine"@,
            Item::WallFixer => "WallFixer"@,
            Item::Bomb => "Bomb"@,
            Item::DizzyWeapon => "DizzyWeapon"@,
            Item::WeaponUpgradeVoucher1 => "WeaponUpgradeVoucher1"@,
            Item::WeaponUpgradeVoucher2 => "WeaponUpgradeVoucher2"@,
            Item::StationUpgradeVoucher1 => "StationUpgradeVoucher1"@,
            Item::StationUpgradeVoucher2 => "StationUpgradeVoucher2"@,
            Item::WallUpgradeVoucher1 => "WallUpgradeVoucher1"@,
            Item::WallUpgradeVoucher2 => "WallUpgradeVoucher2"@,
            Item::BossRobotSummonOrder => "BossRobotSummonOrder"@,
            Item::LargeRobotSummonOrder => "LargeRobotSummonOrder"@,
            Item::MiddleRobotSummonOrder => "MiddleRobotSummonOrder"@,
            Item::SmallRobotSummonOrder => "SmallRobotSummonOrder"@,
            Item::Other => "Other"@,
        }
    }

    /// The item's name on the wire.
    pub fn name(self) -> (s: &'static str)
        ensures
            s@ == self.spec_name(),
    {
        match self {
            Item::Stone => "stone",
            Item::Iron => "iron",
            Item::Copper => "copper",
            Item::Medicine => "Medicine",
            Item::WallFixer => "WallFixer",
            Item::Bomb => "Bomb",
            Item::DizzyWeapon => "DizzyWeapon",
            Item::WeaponUpgradeVoucher1 => "WeaponUpgradeVoucher1",
            Item::WeaponUpgradeVoucher2 => "WeaponUpgradeVoucher2",
            Item::StationUpgradeVoucher1 => "StationUpgradeVoucher1",
            Item::StationUpgradeVoucher2 => "StationUpgradeVoucher2",
            Item::WallUpgradeVoucher1 => "WallUpgradeVoucher1",
            Item::WallUpgradeVoucher2 => "WallUpgradeVoucher2",
            Item::BossRobotSummonOrder => "BossRobotSummonOrder",
            Item::LargeRobotSummonOrder => "LargeRobotSummonOrder",
            Item::MiddleRobotSummonOrder => "MiddleRobotSummonOrder",
            Item::SmallRobotSummonOrder => "SmallRobotSummonOrder",
            Item::Other => "Other",
        }
    }
}

pub const STONE: Item = Item::Stone;
pub const IRON: Item = Item::Iron;
pub const COPPER: Item = Item::Copper;

/// The three ores, in the order every ore loop walks them.
pub open spec fn spec_ores() -> Seq<Item> {
    seq![Item::Iron, Item::Stone, Item::Copper]
}

pub open spec fn is_ore(i: Item) -> bool {
    i == Item::Iron || i == Item::Stone || i == Item::Copper
}

/// The ores, iron first.
pub fn ores() -> (r: Vec<Item>)
    ensures
        r@ == spec_ores(),
{
    let v = vec![Item::Iron, Item::Stone, Item::Copper];
    assert(v@ =~= spec_ores());
    v
}

/// Gold a weapon build costs.
pub const WEAPON_BUILD_COST: i64 = 25;
/// Rounds in one day (day rounds are `0..DAY_ROUNDS`; the night follows).
pub const DAY_ROUNDS: i64 = 70;
/// A tower whose range reaches this far covers the whole map.
pub const FULL_MAP_RANGE: i32 = 99;

#[derive(Clone, Copy, Debug, PartialEq, Eq, Structural)]
pub enum UnitKind {
    Station,
    Worker,
    Pioneer,
    Gatling,
    Railgun,
    Rocket,
    Wall,
    Unknown,
}

impl UnitKind {
    pub open spec fn spec_is_tower(self) -> bool {
        self == UnitKind::Gatling || self == UnitKind::Railgun || self == UnitKind::Rocket
    }

    /// One of the three weapons.
    pub fn is_tower(self) -> (r: bool)
        ensures
            r == self.spec_is_tower(),
    {
        match self {
            UnitKind::Gatling | UnitKind::Railgun | UnitKind::Rocket => true,
            _ => false,
        }
    }
}

#[derive(Clone, Copy, Debug, PartialEq, Eq, Structural)]
pub enum RobotKind {
    Small,
    Middle,
    Large,
    Boss,
    Unknown,
}

impl RobotKind {
    pub open spec fn spec_score(self) -> int {
        match self {
            RobotKind::Small => 1,
            RobotKind::Middle => 2,
            RobotKind::Large => 4,
            RobotKind::Boss => 10,
            RobotKind::Unknown => 0,
        }
    }

    /// `score2` points for removing a robot of this class (1/2/4/10).
    pub fn score(self) -> (r: i64)
        ensures
            r == self.spec_score(),
    {
        match self {
            RobotKind::Small => 1,
            RobotKind::Middle => 2,
            RobotKind::Large => 4,
            RobotKind::Boss => 10,
            RobotKind::Unknown => 0,
        }
    }
}

#[derive(Clone, Copy, Debug, PartialEq, Eq, Structural)]
pub enum Team {
    Challenger,
    Defender,
}

/// One unit of either team.
#[derive(Clone, Debug)]
pub struct Unit {
    pub id: i64,
    pub kind: UnitKind,
    pub pos: Pos,
    pub health: i64,
    pub level: i32,
    pub cooldown: i64,
    pub attack_power: i64,
    pub attack_range: i32,
    pub capacity: i64,
    pub backpack: Vec<Item>,
}

/// How many `item` a sequence of items holds.
pub open spec fn count_in(s: Seq<Item>, item: Item) -> int
    decreases s.len(),
{
    if s.len() == 0 {
        0
    } else {
        count_in(s.drop_last(), item) + if s.last() == item { 1int } else { 0int }
    }
}

pub proof fn lemma_count_in_bounds(s: Seq<Item>, item: Item)
    ensures
        0 <= count_in(s, item) <= s.len(),
    decreases s.len(),
{
    if s.len() > 0 {
        lemma_count_in_bounds(s.drop_last(), item);
    }
}

pub proof fn lemma_count_in_pos(s: Seq<Item>, item: Item)
    ensures
        count_in(s, item) > 0 <==> s.contains(item),
    decreases s.len(),
{
    if s.len() > 0 {
        lemma_count_in_pos(s.drop_last(), item);
        lemma_count_in_bounds(s.drop_last(), item);
        if s.last() == item {
            assert(s[s.len() - 1] == item);
        } else {
            if s.contains(item) {
                let j = choose|j: int| 0 <= j < s.len() && s[j] == item;
                assert(s.drop_last()[j] == item);
            }
            if s.drop_last().contains(item) {
                let j = choose|j: int| 0 <= j < s.drop_last().len() && s.drop_last()[j] == item;
                assert(s[j] == item);
            }
        }
    }
}

/// How much a unit's role is worth saving: the controllable roles have a
/// known maximum health.
pub open spec fn spec_max_hp(kind: UnitKind) -> Option<int> {
    match kind {
        UnitKind::Worker => Some(220),
        UnitKind::Pioneer => Some(200),
        _ => None,
    }
}

impl Unit {
    pub open spec fn spec_alive(&self) -> bool {
        self.health > 0
    }

    pub open spec fn spec_footprint(&self) -> Seq<Pos> {
        if self.kind == UnitKind::Station {
            spec_station_footprint(self.pos)
        } else {
            seq![self.pos]
        }
    }

    pub open spec fn spec_count(&self, item: Item) -> int {
        count_in(self.backpack@, item)
    }

    /// Numbers small enough for the planners' arithmetic, and a position in
    /// the map's coordinate range.
    pub open spec fn wf(&self) -> bool {
        &&& pos_deep(self.pos)
        &&& -1_000_000_000 <= self.health <= 1_000_000_000
        &&& -1000 <= self.level <= 1000
        &&& -1_000_000 <= self.cooldown <= 1_000_000
        &&& -1_000_000 <= self.attack_power <= 1_000_000
        &&& -1000 <= self.attack_range <= 1000
        &&& 0 <= self.capacity <= 1_000_000
        &&& self.backpack@.len() <= 1_000_000
    }

    /// Alive: health above zero.
    pub fn alive(&self) -> (r: bool)
        ensures
            r == self.spec_alive(),
    {
        self.health > 0
    }

    /// The cells this unit covers: the 2×2 station block or its own cell.
    pub fn footprint(&self) -> (fp: Vec<Pos>)
        requires
            self.wf(),
        ensures
            fp@ == self.spec_footprint(),
            all_pos_ok(fp@),
    {
        if self.kind == UnitKind::Station {
            station_footprint(self.pos)
        } else {
            let v = vec![self.pos];
            assert(v@ =~= seq![self.pos]);
            v
        }
    }

    /// How many of `item` the backpack holds.
    pub fn count_item(&self, item: Item) -> (n: i64)
        requires
            self.backpack@.len() <= 1_000_000,
        ensures
            n == self.spec_count(item),
            0 <= n <= self.backpack@.len(),
    {
        let mut n: i64 = 0;
        let mut i: usize = 0;
        while i < self.backpack.len()
            invariant
                i <= self.backpack@.len(),
                self.backpack@.len() <= 1_000_000,
                n == count_in(self.backpack@.take(i as int), item),
                0 <= n <= i,
            decreases self.backpack@.len() - i,
        {
            assert(self.backpack@.take(i as int + 1).drop_last() =~= self.backpack@.take(i as int));
            if self.backpack[i] == item {
                n += 1;
            }
            i += 1;
        }
        assert(self.backpack@.take(self.backpack@.len() as int) =~= self.backpack@);
        n
    }

    /// The pack has no free slot.
    pub fn backpack_full(&self) -> (r: bool)
        requires
            self.backpack@.len() <= 1_000_000,
        ensures
            r == (self.backpack@.len() >= self.capacity),
    {
        self.backpack.len() as i64 >= self.capacity
    }

    /// How far this unit shoots.
    pub fn range_of_attack(&self) -> (r: i32)
        ensures
            r == self.attack_range,
    {
        self.attack_range
    }
}

/// Projectiles a tower fires per volley: gatling bullets and rocket missiles
/// scale with the level, the railgun fires one beam.
pub open spec fn spec_tower_projectiles(kind: UnitKind, level: int) -> int {
    match kind {
        UnitKind::Gatling | UnitKind::Rocket => level,
        UnitKind::Railgun => 1,
        _ => 0,
    }
}

pub fn tower_projectiles(kind: UnitKind, level: i32) -> (n: i32)
    ensures
        n == spec_tower_projectiles(kind, level as int),
{
    match kind {
        UnitKind::Gatling | UnitKind::Rocket => level,
        UnitKind::Railgun => 1,
        _ => 0,
    }
}

/// One NPC (or summoned) robot.
#[derive(Clone, Copy, Debug)]
pub struct Robot {
    pub id: i64,
    pub kind: RobotKind,
    pub pos: Pos,
    pub health: i64,
    pub target_team: Team,
    pub dizzy: bool,
}

impl Robot {
    pub open spec fn wf(&self) -> bool {
        &&& pos_inner(self.pos)
        &&& -1_000_000_000 <= self.health <= 1_000_000_000
    }
}

#[derive(Clone, Copy, Debug, PartialEq, Eq, Structural)]
pub enum ZoneKind {
    /// A vein of the given ore.
    Mine(Item),
    Vendor,
    WeaponShop,
    /// Anything else that cannot be walked on.
    Blocked,
}

/// A non-walkable map feature.
#[derive(Clone, Copy, Debug, PartialEq, Eq, Structural)]
pub struct Zone {
    pub pos: Pos,
    pub kind: ZoneKind,
}

/// The round as the planners see it.
#[derive(Clone, Debug)]
pub struct Turn {
    pub round_no: i64,
    pub day: i64,
    /// Round within the day, counting on through the night: day rounds are
    /// `0..DAY_ROUNDS`, night rounds `DAY_ROUNDS..`.
    pub in_day_round: i64,
    pub is_day: bool,
    pub width: i32,
    pub height: i32,
    pub team_type: Team,
    pub gold: i64,
    pub total_score: i64,
    pub ours: Vec<Unit>,
    pub enemy: Vec<Unit>,
    pub robots: Vec<Robot>,
    pub zones: Vec<Zone>,
    /// Weapon-shop price list.
    pub weapon_shop: Vec<(Item, i64)>,
    /// Vendor buy prices per ore.
    pub vendor_prices: Vec<(Item, i64)>,
}

pub open spec fn units_wf(s: Seq<Unit>) -> bool {
    forall|i: int| 0 <= i < s.len() ==> (#[trigger] s[i]).wf()
}

pub open spec fn robots_wf(s: Seq<Robot>) -> bool {
    forall|i: int| 0 <= i < s.len() ==> (#[trigger] s[i]).wf()
}

pub open spec fn zones_wf(s: Seq<Zone>) -> bool {
    forall|i: int| 0 <= i < s.len() ==> pos_inner((#[trigger] s[i]).pos)
}

pub open spec fn prices_wf(s: Seq<(Item, i64)>) -> bool {
    forall|i: int| 0 <= i < s.len() ==> -1_000_000 <= (#[trigger] s[i]).1 <= 1_000_000
}

/// First price listed for `item`.
pub open spec fn price_in(s: Seq<(Item, i64)>, item: Item) -> Option<i64>
    decreases s.len(),
{
    if s.len() == 0 {
        None
    } else if s[0].0 == item {
        Some(s[0].1)
    } else {
        price_in(s.drop_first(), item)
    }
}

pub proof fn lemma_price_in_bounds(s: Seq<(Item, i64)>, item: Item)
    requires
        prices_wf(s),
    ensures
        price_in(s, item) matches Some(p) ==> -1_000_000 <= p <= 1_000_000,
    decreases s.len(),
{
    if s.len() > 0 && s[0].0 != item {
        assert forall|i: int| 0 <= i < s.drop_first().len() implies -1_000_000 <= (#[trigger] s.drop_first()[i]).1 <= 1_000_000 by {
            assert(s.drop_first()[i] == s[i + 1]);
        }
        lemma_price_in_bounds(s.drop_first(), item);
    }
}

/// The first price an association list gives `item`.
pub fn price_of(s: &[(Item, i64)], item: Item) -> (r: Option<i64>)
    requires
        prices_wf(s@),
    ensures
        r == price_in(s@, item),
        r matches Some(p) ==> -1_000_000 <= p <= 1_000_000,
{
    proof {
        lemma_price_in_bounds(s@, item);
    }
    let mut i: usize = 0;
    assert(s@.skip(0) =~= s@);
    while i < s.len()
        invariant
            i <= s@.len(),
            prices_wf(s@),
            price_in(s@, item) == price_in(s@.skip(i as int), item),
        decreases s@.len() - i,
    {
        assert(s@.skip(i as int).drop_first() =~= s@.skip(i as int + 1));
        assert(s@.skip(i as int)[0] == s@[i as int]);
        if s[i].0 == item {
            assert(-1_000_000 <= s@[i as int].1 <= 1_000_000);
            return Some(s[i].1);
        }
        i += 1;
    }
    None
}

impl Turn {
    /// Every number the planners combine stays far inside machine range.
    pub open spec fn wf(&self) -> bool {
        &&& 1 <= self.width <= 1000
        &&& 1 <= self.height <= 1000
        &&& -1_000_000 <= self.day <= 1_000_000
        &&& -1_000_000 <= self.in_day_round <= 1_000_000
        &&& -1_000_000_000 <= self.round_no <= 1_000_000_000
        &&& -1_000_000_000 <= self.gold <= 1_000_000_000
        &&& units_wf(self.ours@)
        &&& units_wf(self.enemy@)
        &&& robots_wf(self.robots@)
        &&& zones_wf(self.zones@)
        &&& prices_wf(self.weapon_shop@)
        &&& prices_wf(self.vendor_prices@)
        &&& self.ours@.len() <= 10_000
        &&& self.enemy@.len() <= 10_000
        &&& self.robots@.len() <= 10_000
        &&& self.zones@.len() <= 10_000
    }

    /// First listed unit of `s` that is a live station.
    pub open spec fn first_station(s: Seq<Unit>) -> Option<int>
        decreases s.len(),
    {
        if s.len() == 0 {
            None
        } else {
            match Self::first_station(s.drop_last()) {
                Some(i) => Some(i),
                None => if s.last().kind == UnitKind::Station && s.last().health > 0 {
                    Some(s.len() - 1)
                } else {
                    None
                },
            }
        }
    }

    pub open spec fn first_of_kind(s: Seq<Unit>, kind: UnitKind) -> Option<int>
        decreases s.len(),
    {
        if s.len() == 0 {
            None
        } else {
            match Self::first_of_kind(s.drop_last(), kind) {
                Some(i) => Some(i),
                None => if s.last().kind == kind {
                    Some(s.len() - 1)
                } else {
                    None
                },
            }
        }
    }

    /// Our live station, as an index into `ours`.
    pub open spec fn station_idx(&self) -> Option<int> {
        Self::first_station(self.ours@)
    }

    pub open spec fn spec_station(&self) -> Option<Unit> {
        match self.station_idx() {
            Some(i) => Some(self.ours@[i]),
            None => None,
        }
    }

    /// The opponent's station, if we can see one (alive or not).
    pub open spec fn spec_enemy_station(&self) -> Option<Unit> {
        match Self::first_of_kind(self.enemy@, UnitKind::Station) {
            Some(i) => Some(self.enemy@[i]),
            None => None,
        }
    }

    pub open spec fn spec_is_land(&self, p: Pos) -> bool {
        &&& 0 <= p.x < self.width
        &&& 0 <= p.y < self.height
        &&& forall|i: int| 0 <= i < self.zones@.len() ==> (#[trigger] self.zones@[i]).pos != p
    }

    pub open spec fn spec_price(&self, item: Item) -> Option<i64> {
        price_in(self.weapon_shop@, item)
    }

    pub open spec fn spec_vendor_price(&self, item: Item) -> Option<i64> {
        price_in(self.vendor_prices@, item)
    }
}

pub proof fn lemma_first_station(s: Seq<Unit>)
    ensures
        match Turn::first_station(s) {
            Some(i) => 0 <= i < s.len() && s[i].kind == UnitKind::Station && s[i].health > 0
                && forall|j: int| 0 <= j < i ==> !(s[j].kind == UnitKind::Station && s[j].health > 0),
            None => forall|j: int| 0 <= j < s.len() ==> !(s[j].kind == UnitKind::Station && s[j].health > 0),
        },
    decreases s.len(),
{
    if s.len() > 0 {
        let d = s.drop_last();
        lemma_first_station(d);
        assert forall|j: int| 0 <= j < d.len() implies d[j] == s[j] by {}
    }
}

pub proof fn lemma_first_of_kind(s: Seq<Unit>, kind: UnitKind)
    ensures
        match Turn::first_of_kind(s, kind) {
            Some(i) => 0 <= i < s.len() && s[i].kind == kind
                && forall|j: int| 0 <= j < i ==> s[j].kind != kind,
            None => forall|j: int| 0 <= j < s.len() ==> s[j].kind != kind,
        },
    decreases s.len(),
{
    if s.len() > 0 {
        let d = s.drop_last();
        lemma_first_of_kind(d, kind);
        assert forall|j: int| 0 <= j < d.len() implies d[j] == s[j] by {}
    }
}

impl Turn {
    /// Index of our live station in `ours`.
    pub fn station_index(&self) -> (r: Option<usize>)
        ensures
            match r {
                Some(i) => self.station_idx() == Some(i as int),
                None => self.station_idx() is None,
            },
    {
        proof {
            lemma_first_station(self.ours@);
        }
        let mut i: usize = 0;
        while i < self.ours.len()
            invariant
                i <= self.ours@.len(),
                forall|j: int| 0 <= j < i ==> !(self.ours@[j].kind == UnitKind::Station && self.ours@[j].health > 0),
            decreases self.ours@.len() - i,
        {
            if self.ours[i].kind == UnitKind::Station && self.ours[i].health > 0 {
                proof {
                    lemma_first_station(self.ours@);
                }
                return Some(i);
            }
            i += 1;
        }
        None
    }

    /// Our live station.
    pub fn station(&self) -> (r: Option<&Unit>)
        ensures
            match r {
                Some(u) => self.spec_station() == Some(*u),
                None => self.spec_station() is None,
            },
    {
        proof {
            lemma_first_station(self.ours@);
        }
        match self.station_index() {
            Some(i) => Some(&self.ours[i]),
            None => None,
        }
    }

    /// The opponent's station, when it is in sight.
    pub fn enemy_station(&self) -> (r: Option<&Unit>)
        ensures
            match r {
                Some(u) => self.spec_enemy_station() == Some(*u),
                None => self.spec_enemy_station() is None,
            },
    {
        proof {
            lemma_first_of_kind(self.enemy@, UnitKind::Station);
        }
        let mut i: usize = 0;
        while i < self.enemy.len()
            invariant
                i <= self.enemy@.len(),
                forall|j: int| 0 <= j < i ==> self.enemy@[j].kind != UnitKind::Station,
            decreases self.enemy@.len() - i,
        {
            if self.enemy[i].kind == UnitKind::Station {
                proof {
                    lemma_first_of_kind(self.enemy@, UnitKind::Station);
                    let k = Turn::first_of_kind(self.enemy@, UnitKind::Station);
                    assert(k is Some);
                    let kk = k->0;
                    assert(!(kk < i as int));
                    assert(!(i < kk));
                }
                return Some(&self.enemy[i]);
            }
            i += 1;
        }
        None
    }

    /// Walkable: inside the map and not a zone.
    pub fn is_land(&self, p: Pos) -> (r: bool)
        ensures
            r == self.spec_is_land(p),
    {
        if p.x < 0 || p.x >= self.width || p.y < 0 || p.y >= self.height {
            return false;
        }
        let mut i: usize = 0;
        while i < self.zones.len()
            invariant
                i <= self.zones@.len(),
                forall|j: int| 0 <= j < i ==> (#[trigger] self.zones@[j]).pos != p,
            decreases self.zones@.len() - i,
        {
            if self.zones[i].pos == p {
                return false;
            }
            i += 1;
        }
        true
    }

    /// The weapon shop's price for `item`.
    pub fn price(&self, item: Item) -> (r: Option<i64>)
        requires
            self.wf(),
        ensures
            r == self.spec_price(item),
            r matches Some(p) ==> -1_000_000 <= p <= 1_000_000,
    {
        price_of(&self.weapon_shop, item)
    }

    /// The vendor's price for `item`.
    pub fn vendor_price(&self, item: Item) -> (r: Option<i64>)
        requires
            self.wf(),
        ensures
            r == self.spec_vendor_price(item),
            r matches Some(p) ==> -1_000_000 <= p <= 1_000_000,
    {
        price_of(&self.vendor_prices, item)
    }
}


/// A role that takes movement orders: a live worker or pioneer.
pub open spec fn is_controllable(u: Unit) -> bool {
    (u.kind == UnitKind::Worker || u.kind == UnitKind::Pioneer) && u.health > 0
}

/// A standing weapon.
pub open spec fn is_live_tower(u: Unit) -> bool {
    u.kind.spec_is_tower() && u.health > 0
}

/// A standing wall.
pub open spec fn is_live_wall(u: Unit) -> bool {
    u.kind == UnitKind::Wall && u.health > 0
}

/// Cells occupied by the units of `s` other than `id`, live ones only.
pub open spec fn unit_cells(s: Seq<Unit>, id: i64) -> Seq<Pos>
    decreases s.len(),
{
    if s.len() == 0 {
        Seq::empty()
    } else {
        let u = s.last();
        unit_cells(s.drop_last(), id) + if u.id != id && u.health > 0 { u.spec_footprint() } else { Seq::empty() }
    }
}

/// Cells of live robots.
pub open spec fn robot_cells(s: Seq<Robot>) -> Seq<Pos>
    decreases s.len(),
{
    if s.len() == 0 {
        Seq::empty()
    } else {
        robot_cells(s.drop_last()) + if s.last().health > 0 { seq![s.last().pos] } else { Seq::empty() }
    }
}

/// Every cell of `s` that is the footprint of some unit, alive or not.
pub open spec fn all_unit_cells(s: Seq<Unit>) -> Seq<Pos>
    decreases s.len(),
{
    if s.len() == 0 {
        Seq::empty()
    } else {
        all_unit_cells(s.drop_last()) + s.last().spec_footprint()
    }
}

/// Cells nobody but `id` may walk through: every other live unit of either
/// team and every live robot.
pub open spec fn spec_blocked_for(turn: &Turn, id: i64) -> Seq<Pos> {
    unit_cells(turn.ours@, id) + unit_cells(turn.enemy@, id) + robot_cells(turn.robots@)
}

/// Positions of the zones of one kind, in zone order.
pub open spec fn zone_cells(s: Seq<Zone>, kind: ZoneKind) -> Seq<Pos>
    decreases s.len(),
{
    if s.len() == 0 {
        Seq::empty()
    } else {
        zone_cells(s.drop_last(), kind) + if s.last().kind == kind { seq![s.last().pos] } else { Seq::empty() }
    }
}

/// Every vein on the map with its ore, in zone order.
pub open spec fn mine_list(s: Seq<Zone>) -> Seq<(Pos, Item)>
    decreases s.len(),
{
    if s.len() == 0 {
        Seq::empty()
    } else {
        mine_list(s.drop_last()) + match s.last().kind {
            ZoneKind::Mine(ore) => seq![(s.last().pos, ore)],
            _ => Seq::empty(),
        }
    }
}

pub proof fn lemma_seq_pos_ok_concat(a: Seq<Pos>, b: Seq<Pos>)
    requires
        all_pos_ok(a),
        all_pos_ok(b),
    ensures
        all_pos_ok(a + b),
{
    assert forall|i: int| 0 <= i < (a + b).len() implies pos_ok(#[trigger] (a + b)[i]) by {
        if i < a.len() {
            assert((a + b)[i] == a[i]);
        } else {
            assert((a + b)[i] == b[i - a.len()]);
        }
    }
}

/// Append every cell of `src` to `dst`.
pub fn extend_cells(dst: &mut Vec<Pos>, src: &Vec<Pos>)
    ensures
        final(dst)@ == old(dst)@ + src@,
{
    let mut i: usize = 0;
    let ghost d0 = dst@;
    while i < src.len()
        invariant
            i <= src@.len(),
            dst@ == d0 + src@.take(i as int),
        decreases src@.len() - i,
    {
        dst.push(src[i]);
        i += 1;
        assert(dst@ =~= d0 + src@.take(i as int));
    }
    assert(src@.take(src@.len() as int) =~= src@);
}

pub proof fn lemma_unit_cells_ok(s: Seq<Unit>, id: i64)
    requires
        units_wf(s),
    ensures
        all_pos_ok(unit_cells(s, id)),
        all_pos_ok(all_unit_cells(s)),
    decreases s.len(),
{
    if s.len() > 0 {
        let d = s.drop_last();
        assert(units_wf(d)) by {
            assert forall|i: int| 0 <= i < d.len() implies (#[trigger] d[i]).wf() by {
                assert(d[i] == s[i]);
            }
        }
        lemma_unit_cells_ok(d, id);
        let u = s.last();
        assert(u.wf()) by { assert(u == s[s.len() - 1]); }
        assert(all_pos_ok(u.spec_footprint()));
        assert(all_pos_ok(Seq::<Pos>::empty()));
        lemma_seq_pos_ok_concat(unit_cells(d, id), if u.id != id && u.health > 0 { u.spec_footprint() } else { Seq::empty() });
        lemma_seq_pos_ok_concat(all_unit_cells(d), u.spec_footprint());
    }
}

impl Turn {
    /// The cells of our own units (alive or not): nothing is built under them.
    pub fn occupied_cells(&self) -> (r: Vec<Pos>)
        requires
            self.wf(),
        ensures
            r@ == all_unit_cells(self.ours@),
    {
        let mut out: Vec<Pos> = Vec::new();
        let mut i: usize = 0;
        while i < self.ours.len()
            invariant
                i <= self.ours@.len(),
                units_wf(self.ours@),
                out@ == all_unit_cells(self.ours@.take(i as int)),
            decreases self.ours@.len() - i,
        {
            assert(self.ours@.take(i as int + 1).drop_last() =~= self.ours@.take(i as int));
            assert(self.ours@[i as int].wf());
            let fp = self.ours[i].footprint();
            extend_cells(&mut out, &fp);
            i += 1;
        }
        assert(self.ours@.take(self.ours@.len() as int) =~= self.ours@);
        out
    }

    /// Cells a role with id `id` cannot walk through (`-1`: nobody is exempt).
    pub fn blocked_for(&self, id: i64) -> (r: Vec<Pos>)
        requires
            self.wf(),
        ensures
            r@ == spec_blocked_for(self, id),
    {
        let mut out: Vec<Pos> = Vec::new();
        let mut i: usize = 0;
        while i < self.ours.len()
            invariant
                i <= self.ours@.len(),
                units_wf(self.ours@),
                out@ == unit_cells(self.ours@.take(i as int), id),
            decreases self.ours@.len() - i,
        {
            assert(self.ours@.take(i as int + 1).drop_last() =~= self.ours@.take(i as int));
            assert(self.ours@[i as int].wf());
            if self.ours[i].id != id && self.ours[i].health > 0 {
                let fp = self.ours[i].footprint();
                extend_cells(&mut out, &fp);
            } else {
                assert(out@ =~= out@ + Seq::<Pos>::empty());
            }
            i += 1;
        }
        assert(self.ours@.take(self.ours@.len() as int) =~= self.ours@);
        let ghost a = out@;
        let mut e: Vec<Pos> = Vec::new();
        let mut i: usize = 0;
        while i < self.enemy.len()
            invariant
                i <= self.enemy@.len(),
                units_wf(self.enemy@),
                e@ == unit_cells(self.enemy@.take(i as int), id),
            decreases self.enemy@.len() - i,
        {
            assert(self.enemy@.take(i as int + 1).drop_last() =~= self.enemy@.take(i as int));
            assert(self.enemy@[i as int].wf());
            if self.enemy[i].id != id && self.enemy[i].health > 0 {
                let fp = self.enemy[i].footprint();
                extend_cells(&mut e, &fp);
            } else {
                assert(e@ =~= e@ + Seq::<Pos>::empty());
            }
            i += 1;
        }
        assert(self.enemy@.take(self.enemy@.len() as int) =~= self.enemy@);
        let mut rb: Vec<Pos> = Vec::new();
        let mut i: usize = 0;
        while i < self.robots.len()
            invariant
                i <= self.robots@.len(),
                rb@ == robot_cells(self.robots@.take(i as int)),
            decreases self.robots@.len() - i,
        {
            assert(self.robots@.take(i as int + 1).drop_last() =~= self.robots@.take(i as int));
            if self.robots[i].health > 0 {
                rb.push(self.robots[i].pos);
                assert(rb@ =~= robot_cells(self.robots@.take(i as int + 1)));
            } else {
                assert(rb@ =~= robot_cells(self.robots@.take(i as int + 1)));
            }
            i += 1;
        }
        assert(self.robots@.take(self.robots@.len() as int) =~= self.robots@);
        extend_cells(&mut out, &e);
        extend_cells(&mut out, &rb);
        out
    }

    /// Cells of every zone of `kind`, in zone order.
    pub fn zone_positions(&self, kind: ZoneKind) -> (r: Vec<Pos>)
        ensures
            r@ == zone_cells(self.zones@, kind),
    {
        let mut out: Vec<Pos> = Vec::new();
        let mut i: usize = 0;
        while i < self.zones.len()
            invariant
                i <= self.zones@.len(),
                out@ == zone_cells(self.zones@.take(i as int), kind),
            decreases self.zones@.len() - i,
        {
            assert(self.zones@.take(i as int + 1).drop_last() =~= self.zones@.take(i as int));
            if self.zones[i].kind == kind {
                out.push(self.zones[i].pos);
            }
            assert(out@ =~= zone_cells(self.zones@.take(i as int + 1), kind));
            i += 1;
        }
        assert(self.zones@.take(self.zones@.len() as int) =~= self.zones@);
        out
    }

    /// Vendor counters.
    pub fn vendors(&self) -> (r: Vec<Pos>)
        ensures
            r@ == zone_cells(self.zones@, ZoneKind::Vendor),
    {
        self.zone_positions(ZoneKind::Vendor)
    }

    /// Weapon-shop counters.
    pub fn weapon_shops(&self) -> (r: Vec<Pos>)
        ensures
            r@ == zone_cells(self.zones@, ZoneKind::WeaponShop),
    {
        self.zone_positions(ZoneKind::WeaponShop)
    }

    /// Every vein with its ore.
    pub fn all_mines(&self) -> (r: Vec<(Pos, Item)>)
        ensures
            r@ == mine_list(self.zones@),
    {
        let mut out: Vec<(Pos, Item)> = Vec::new();
        let mut i: usize = 0;
        while i < self.zones.len()
            invariant
                i <= self.zones@.len(),
                out@ == mine_list(self.zones@.take(i as int)),
            decreases self.zones@.len() - i,
        {
            assert(self.zones@.take(i as int + 1).drop_last() =~= self.zones@.take(i as int));
            match self.zones[i].kind {
                ZoneKind::Mine(ore) => {
                    out.push((self.zones[i].pos, ore));
                },
                _ => {},
            }
            assert(out@ =~= mine_list(self.zones@.take(i as int + 1)));
            i += 1;
        }
        assert(self.zones@.take(self.zones@.len() as int) =~= self.zones@);
        out
    }

    /// The first unit of ours with this id.
    pub fn role_by_id(&self, id: i64) -> (r: Option<&Unit>)
        ensures
            match r {
                Some(u) => u.id == id && exists|i: int| 0 <= i < self.ours@.len() && self.ours@[i] == *u
                    && forall|j: int| 0 <= j < i ==> self.ours@[j].id != id,
                None => forall|j: int| 0 <= j < self.ours@.len() ==> self.ours@[j].id != id,
            },
    {
        let mut i: usize = 0;
        while i < self.ours.len()
            invariant
                i <= self.ours@.len(),
                forall|j: int| 0 <= j < i ==> self.ours@[j].id != id,
            decreases self.ours@.len() - i,
        {
            if self.ours[i].id == id {
                return Some(&self.ours[i]);
            }
            i += 1;
        }
        None
    }
}


/// One step of a filter built in a loop.
pub proof fn lemma_filter_step<A>(s: Seq<A>, i: int, pred: spec_fn(A) -> bool)
    requires
        0 <= i < s.len(),
    ensures
        s.take(i + 1).filter(pred) == if pred(s[i]) { s.take(i).filter(pred).push(s[i]) } else { s.take(i).filter(pred) },
{
    reveal_with_fuel(Seq::filter, 1);
    assert(s.take(i + 1).drop_last() =~= s.take(i));
    assert(s.take(i + 1).last() == s[i]);
}

/// Positions of the live walls of `s`, in unit order.
pub open spec fn wall_pos_list(s: Seq<Unit>) -> Seq<Pos>
    decreases s.len(),
{
    if s.len() == 0 {
        Seq::empty()
    } else {
        wall_pos_list(s.drop_last()) + if is_live_wall(s.last()) { seq![s.last().pos] } else { Seq::empty() }
    }
}

/// Number of live towers of `s`.
pub open spec fn tower_count(s: Seq<Unit>) -> int
    decreases s.len(),
{
    if s.len() == 0 {
        0
    } else {
        tower_count(s.drop_last()) + if is_live_tower(s.last()) { 1int } else { 0int }
    }
}

pub proof fn lemma_tower_count_bounds(s: Seq<Unit>)
    ensures
        0 <= tower_count(s) <= s.len(),
    decreases s.len(),
{
    if s.len() > 0 {
        lemma_tower_count_bounds(s.drop_last());
    }
}

impl Turn {
    /// Cells of our standing walls.
    pub fn wall_positions(&self) -> (r: Vec<Pos>)
        ensures
            r@ == wall_pos_list(self.ours@),
    {
        let mut out: Vec<Pos> = Vec::new();
        let mut i: usize = 0;
        while i < self.ours.len()
            invariant
                i <= self.ours@.len(),
                out@ == wall_pos_list(self.ours@.take(i as int)),
            decreases self.ours@.len() - i,
        {
            assert(self.ours@.take(i as int + 1).drop_last() =~= self.ours@.take(i as int));
            if self.ours[i].kind == UnitKind::Wall && self.ours[i].health > 0 {
                out.push(self.ours[i].pos);
            }
            assert(out@ =~= wall_pos_list(self.ours@.take(i as int + 1)));
            i += 1;
        }
        assert(self.ours@.take(self.ours@.len() as int) =~= self.ours@);
        out
    }

    /// How many of our towers stand.
    pub fn towers_len(&self) -> (n: usize)
        ensures
            n == tower_count(self.ours@),
    {
        let mut n: usize = 0;
        let mut i: usize = 0;
        while i < self.ours.len()
            invariant
                i <= self.ours@.len(),
                n == tower_count(self.ours@.take(i as int)),
                n <= i,
            decreases self.ours@.len() - i,
        {
            assert(self.ours@.take(i as int + 1).drop_last() =~= self.ours@.take(i as int));
            if self.ours[i].kind.is_tower() && self.ours[i].health > 0 {
                n += 1;
            }
            i += 1;
        }
        assert(self.ours@.take(self.ours@.len() as int) =~= self.ours@);
        n
    }
}

} // verus!
