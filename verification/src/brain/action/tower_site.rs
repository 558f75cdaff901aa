//! Tower siting: the three fixed weapon cells of the L, each empty slot
//! paired with the weapon kind the build line puts there.

use vstd::prelude::*;
use crate::model::{Pos, Turn, UnitKind, all_unit_cells, contains_pos, tower_count};
use crate::state::BotState;
use crate::brain::action::base_layout;

verus! {

/// At most this many towers stand.
pub const TOWER_CAP: usize = 3;

/// The tower build line: slot `n` of the cap always builds entry `n`.
pub open spec fn build_order() -> Seq<UnitKind> {
    seq![UnitKind::Rocket, UnitKind::Railgun, UnitKind::Gatling]
}

/// The weapon the `n`-th tower slot builds, while the line lasts.
pub fn build_kind(n: usize) -> (k: Option<UnitKind>)
    ensures
        n < 3 ==> k == Some(build_order()[n as int]),
        n >= 3 ==> k is None,
{
    if n == 0 {
        Some(UnitKind::Rocket)
    } else if n == 1 {
        Some(UnitKind::Railgun)
    } else if n == 2 {
        Some(UnitKind::Gatling)
    } else {
        None
    }
}

/// Walk the sites in layout order: skip a site that is not land or lies
/// under one of our units; stop once every empty slot has a site or the line
/// runs out; skip a site refused for the kind its slot builds.
pub open spec fn tower_walk(turn: &Turn, state: &BotState, sites: Seq<Pos>, existing: int, slots: int,
    acc: Seq<(Pos, UnitKind)>) -> Seq<(Pos, UnitKind)>
    decreases sites.len(),
{
    if sites.len() == 0 || acc.len() >= slots {
        acc
    } else {
        let site = sites[0];
        let rest = sites.subrange(1, sites.len() as int);
        if !turn.spec_is_land(site) || all_unit_cells(turn.ours@).contains(site) {
            tower_walk(turn, state, rest, existing, slots, acc)
        } else if existing + acc.len() >= 3 {
            acc
        } else {
            let kind = build_order()[existing + acc.len()];
            if state.spec_blacklisted(site, kind) {
                tower_walk(turn, state, rest, existing, slots, acc)
            } else {
                tower_walk(turn, state, rest, existing, slots, acc.push((site, kind)))
            }
        }
    }
}

pub open spec fn spec_tower_gaps(turn: &Turn, state: &BotState) -> Seq<(Pos, UnitKind)> {
    let existing = tower_count(turn.ours@);
    if existing >= TOWER_CAP || turn.spec_station() is None {
        Seq::empty()
    } else {
        tower_walk(turn, state, base_layout::spec_lay(turn, base_layout::weapon_offsets()), existing,
            TOWER_CAP - existing, Seq::empty())
    }
}

/// A slot the tower list may name: a land site under none of our units,
/// not refused for the kind, and the kind the build line puts in slot `n`.
pub open spec fn tower_slot_ok(turn: &Turn, state: &BotState, e: (Pos, UnitKind), n: int) -> bool {
    &&& turn.spec_is_land(e.0)
    &&& !all_unit_cells(turn.ours@).contains(e.0)
    &&& !state.spec_blacklisted(e.0, e.1)
    &&& 0 <= n < 3
    &&& e.1 == build_order()[n]
}

proof fn lemma_tower_walk(turn: &Turn, state: &BotState, sites: Seq<Pos>, existing: int, slots: int,
    acc: Seq<(Pos, UnitKind)>)
    requires
        0 <= existing,
        acc.len() <= slots,
        forall|i: int| 0 <= i < acc.len() ==> tower_slot_ok(turn, state, #[trigger] acc[i], existing + i),
    ensures
        ({
            let r = tower_walk(turn, state, sites, existing, slots, acc);
            &&& acc.len() <= r.len() <= slots
            &&& r.subrange(0, acc.len() as int) == acc
            &&& forall|i: int| 0 <= i < r.len() ==> tower_slot_ok(turn, state, #[trigger] r[i], existing + i)
            &&& forall|i: int| acc.len() <= i < r.len() ==> sites.contains(#[trigger] r[i].0)
        }),
    decreases sites.len(),
{
    let r = tower_walk(turn, state, sites, existing, slots, acc);
    if sites.len() == 0 || acc.len() >= slots {
        assert(r.subrange(0, acc.len() as int) =~= acc);
    } else {
        let site = sites[0];
        let rest = sites.subrange(1, sites.len() as int);
        assert forall|q: Pos| rest.contains(q) implies sites.contains(q) by {
            let k = choose|k: int| 0 <= k < rest.len() && rest[k] == q;
            assert(sites[k + 1] == q);
        }
        if !turn.spec_is_land(site) || all_unit_cells(turn.ours@).contains(site) {
            lemma_tower_walk(turn, state, rest, existing, slots, acc);
        } else if existing + acc.len() >= 3 {
            assert(r.subrange(0, acc.len() as int) =~= acc);
        } else {
            let kind = build_order()[existing + acc.len()];
            if state.spec_blacklisted(site, kind) {
                lemma_tower_walk(turn, state, rest, existing, slots, acc);
            } else {
                let a2 = acc.push((site, kind));
                assert forall|i: int| 0 <= i < a2.len() implies tower_slot_ok(turn, state, #[trigger] a2[i], existing + i) by {
                    if i < acc.len() {
                        assert(a2[i] == acc[i]);
                    }
                }
                lemma_tower_walk(turn, state, rest, existing, slots, a2);
                let r2 = tower_walk(turn, state, rest, existing, slots, a2);
                assert(r2.subrange(0, a2.len() as int) == a2);
                assert forall|i: int| acc.len() <= i < r.len() implies sites.contains(#[trigger] r[i].0) by {
                    if i == acc.len() {
                        assert(r[i] == r2.subrange(0, a2.len() as int)[i]);
                        assert(sites[0] == site);
                    }
                }
                assert(r.subrange(0, acc.len() as int) =~= acc) by {
                    assert forall|i: int| 0 <= i < acc.len() implies r.subrange(0, acc.len() as int)[i] == acc[i] by {
                        assert(r[i] == r2.subrange(0, a2.len() as int)[i]);
                    }
                }
            }
        }
    }
}

/// The tower list: nothing at the cap or without a station; otherwise at
/// most one entry per empty slot, each a land site of the weapon layout
/// under none of our units and not refused for its kind, the `i`-th entry
/// building the line's weapon for slot `existing + i`.
pub proof fn law_tower_gaps(turn: &Turn, state: &BotState)
    ensures
        ({
            let existing = tower_count(turn.ours@);
            let g = spec_tower_gaps(turn, state);
            &&& (existing >= TOWER_CAP || turn.spec_station() is None) ==> g.len() == 0
            &&& existing >= 0 ==> g.len() <= if TOWER_CAP - existing > 0 { TOWER_CAP - existing } else { 0 }
            &&& existing >= 0 ==> forall|i: int| 0 <= i < g.len() ==> tower_slot_ok(turn, state, #[trigger] g[i], existing + i)
            &&& forall|i: int| 0 <= i < g.len() ==>
                base_layout::spec_lay(turn, base_layout::weapon_offsets()).contains(#[trigger] g[i].0)
        }),
{
    let existing = tower_count(turn.ours@);
    if !(existing >= TOWER_CAP || turn.spec_station() is None) {
        crate::model::lemma_tower_count_bounds(turn.ours@);
        lemma_tower_walk(turn, state, base_layout::spec_lay(turn, base_layout::weapon_offsets()), existing,
            TOWER_CAP - existing, Seq::empty());
    }
}

/// The empty tower slots, each with its site and the weapon it builds: at
/// most one per slot below the cap, in the L's layout order, the `n`-th
/// slot building the line's `n`-th weapon whatever already stands. Sites
/// under one of our units, refused for their kind, or not land are passed
/// over.
pub fn tower_gaps(turn: &Turn, state: &BotState) -> (gaps: Vec<(Pos, UnitKind)>)
    requires
        turn.wf(),
    ensures
        gaps@ == spec_tower_gaps(turn, state),
        forall|k: int| 0 <= k < gaps@.len() ==> crate::model::pos_inner(#[trigger] gaps@[k].0),
{
    let existing = turn.towers_len();
    if existing >= TOWER_CAP || turn.station().is_none() {
        return Vec::new();
    }
    let slots = TOWER_CAP - existing;
    let occupied = turn.occupied_cells();
    let sites = base_layout::weapon_sites(turn);
    let mut gaps: Vec<(Pos, UnitKind)> = Vec::new();
    assert(sites@.subrange(0, sites@.len() as int) =~= sites@);
    let mut i: usize = 0;
    let mut done = false;
    while i < sites.len() && !done
        invariant
            i <= sites@.len(),
            existing < 3,
            slots == 3 - existing,
            existing as int == tower_count(turn.ours@),
            occupied@ == all_unit_cells(turn.ours@),
            !done ==> spec_tower_gaps(turn, state)
                == tower_walk(turn, state, sites@.subrange(i as int, sites@.len() as int), existing as int,
                    slots as int, gaps@),
            done ==> spec_tower_gaps(turn, state) == gaps@,
            sites@ == base_layout::spec_lay(turn, base_layout::weapon_offsets()),
            gaps@.len() <= slots,
            forall|k: int| 0 <= k < sites@.len() ==> crate::model::pos_inner(#[trigger] sites@[k]),
            forall|k: int| 0 <= k < gaps@.len() ==> crate::model::pos_inner(#[trigger] gaps@[k].0),
        decreases sites@.len() - i + (if done { 0int } else { 1int }),
    {
        let ghost rest = sites@.subrange(i as int, sites@.len() as int);
        assert(rest[0] == sites@[i as int]);
        assert(rest.subrange(1, rest.len() as int) =~= sites@.subrange(i as int + 1, sites@.len() as int));
        if gaps.len() >= slots {
            done = true;
        } else {
            let site = sites[i];
            if turn.is_land(site) && !contains_pos(&occupied, site) {
                match build_kind(existing + gaps.len()) {
                    None => {
                        done = true;
                    },
                    Some(kind) => {
                        if !state.blacklisted(site, kind) {
                            gaps.push((site, kind));
                        }
                    },
                }
            }
            i += 1;
        }
    }
    proof {
        if !done {
            assert(sites@.subrange(i as int, sites@.len() as int).len() == 0);
        }
    }
    gaps
}

} // verus!
