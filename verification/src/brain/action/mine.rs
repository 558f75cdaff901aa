//! What the two mining mainlines share: whether the team's stone already
//! covers the day's wall demand.

use vstd::prelude::*;
use crate::model::{Turn, Item};
use crate::brain::economy::{team_ores, team_count};

verus! {

pub open spec fn spec_stone_covered(turn: &Turn, stone_demand: int) -> bool {
    stone_demand <= 0 || team_count(turn.ours@, Item::Stone) >= stone_demand
}

/// Does the team's carried stone already cover the day's wall demand?
pub fn stone_covered(turn: &Turn, stone_demand: i64) -> (r: bool)
    requires
        turn.wf(),
    ensures
        r == spec_stone_covered(turn, stone_demand as int),
{
    stone_demand <= 0 || team_ores(turn, Item::Stone) >= stone_demand
}

} // verus!
