//! Passwords of a role-playing game: the twenty characters that hold a game
//! state, how they are decoded and encoded, and how those that match a
//! pattern are found.

pub mod alphabet;
pub mod crc;
pub mod decode;
pub mod encode;
pub mod error;
pub mod game_state;
pub mod generate;
pub mod normalize;
pub mod reach;
pub mod results;
pub mod roundtrip;
pub mod sixbit;
pub mod tables;
pub mod text;
pub mod trail;
pub mod validate;
pub mod walk;

pub use crate::crc::crc_update;
pub use crate::decode::decode;
pub use crate::encode::encode;
pub use crate::error::{Dq1PasswordError, Dq1PasswordResult, ErrorKind};
pub use crate::game_state::GameState;
pub use crate::generate::generate;
pub use crate::normalize::{normalize_hero_name, normalize_password, normalize_pattern};
pub use crate::validate::{
    validate_herb_count, validate_hero_armor, validate_hero_name, validate_hero_shield,
    validate_hero_weapon, validate_inventory, validate_key_count, validate_password,
    validate_pattern, validate_salt, validate_tool,
};
