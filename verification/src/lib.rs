//! Cities, roads and commodities of a small trading map, with the rules that
//! decide what the player selects and what the city panel shows.
pub mod city;
pub mod city_ui;
pub mod commodity;
pub mod entity;
pub mod road;
pub mod setup;

pub use city::{City, Player};
pub use commodity::{Commodity, Extractor};
pub use entity::EntityId;
pub use road::Road;
pub use setup::zwolle_city;
