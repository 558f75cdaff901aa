//! The sell executor: stand at a vendor and sell, or walk to one.

use vstd::prelude::*;
use crate::model::{Pos, Turn, Unit, ZoneKind, zone_cells, all_pos_ok};
use crate::protocol::RoleCommand;
use crate::state::BotState;
use crate::brain::{walk_toward, walk_result};
use crate::brain::economy::{stands_of, spec_sell_command, sell_command, lemma_zone_cells_inner};
use crate::brain::action::shop::stands_around;

verus! {

/// Every stand beside a vendor.
pub open spec fn vendor_stands(turn: &Turn) -> Seq<Pos> {
    stands_of(turn, zone_cells(turn.zones@, ZoneKind::Vendor))
}

/// What the sell executor does this round.
pub open spec fn sell_flow_result(turn: &Turn, state: &BotState, role: Unit, stone_demand: int,
    before: Seq<Pos>, after: Seq<Pos>, r: Option<RoleCommand>) -> bool {
    let stands = vendor_stands(turn);
    if stands.len() == 0 {
        r is None && after == before
    } else if stands.contains(role.pos) {
        r == spec_sell_command(turn, state, role, stone_demand) && after == before
    } else {
        walk_result(turn, role, stands, before, after, r)
    }
}

/// Sell at a vendor when standing beside one, else walk to the nearest.
pub fn sell_flow(turn: &Turn, state: &BotState, role: &Unit, stone_demand: i64, claimed: &mut Vec<Pos>)
    -> (r: Option<RoleCommand>)
    requires
        turn.wf(),
        state.wf(),
        role.wf(),
        -1_000_000_000_000 <= stone_demand <= 1_000_000_000_000,
    ensures
        sell_flow_result(turn, state, *role, stone_demand as int, old(claimed)@, final(claimed)@, r),
{
    proof {
        lemma_zone_cells_inner(turn.zones@, ZoneKind::Vendor);
    }
    let vendors = turn.vendors();
    let stands = stands_around(turn, &vendors);
    if stands.len() == 0 {
        return None;
    }
    if crate::model::contains_pos(&stands, role.pos) {
        return sell_command(turn, state, role, stone_demand);
    }
    walk_toward(turn, role, &stands, claimed)
}

} // verus!
