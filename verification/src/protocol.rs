//! The commands a role can be given in one round.

use vstd::prelude::*;
use crate::model::{Pos, Item, UnitKind};

verus! {

/// One role's action for the round.
#[derive(Clone, Debug, PartialEq, Eq)]
pub enum RoleCommand {
    /// Step onto an adjacent cell.
    Move(Pos),
    /// Tear down one of our own walls.
    Remove(Pos),
    /// Build a wall or a weapon of the given kind.
    Build(Pos, UnitKind),
    /// Dig one load from the vein at this cell.
    Collect(Pos),
    /// Sell this many of an ore at the vendor.
    Sell(Item, i64),
    /// Buy this many of an item at the weapon shop.
    Buy(Item, i64),
    /// Use a carried item on oneself (or the team).
    Use(Item),
    /// Use a carried item on a cell.
    UseAt(Item, Pos),
    /// Throw one carried item away.
    Drop(Item),
    /// Fire a tower at these cells.
    Attack(Vec<Pos>),
}

} // verus!
