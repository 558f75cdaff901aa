//! Action geometry and executors shared by the role mainlines.

pub mod base_layout;
pub mod geometry;
pub mod fight;
pub mod shop;
pub mod tower_site;
pub mod building;
pub mod mine;
pub mod sell;
