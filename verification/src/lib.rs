//! Verified decision logic of a two-team base-defence bot: board model, base
//! layout and wall geometry, weapon ballistics and targeting, economy rules,
//! news reading and the adaptive coach.

pub mod model;
pub mod path;
pub mod protocol;
pub mod state;
pub mod brain;
pub mod abreport;
pub mod text;
pub mod json;
