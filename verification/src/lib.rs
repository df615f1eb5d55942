//! Verified core of the Chaos Fortress tower-defence game: keyed registries,
//! CSV record parsing, attribute modifiers, skills, shop and targeting rules.

pub mod named_map;
pub mod text;
pub mod attribute;
pub mod csv;
pub mod dropped_items;
pub mod skill;
pub mod level;
pub mod shop;
pub mod common;
pub mod role;
pub mod enemy;
pub mod bullet;
pub mod map;
