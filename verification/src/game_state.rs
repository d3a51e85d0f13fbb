//! The state of a game, as a password stores it.

use vstd::prelude::*;
use crate::error::{outcome, Dq1PasswordResult, ErrorKind};
use crate::normalize::{normalize_hero_name, spec_normalize_hero_name};
use crate::validate::{
    inventory_in_order, validate_herb_count, validate_hero_armor, validate_hero_name,
    validate_hero_shield, validate_hero_weapon, validate_inventory, validate_key_count,
    validate_salt, ARMOR_MAX, HERB_MAX, KEY_MAX, SALT_MAX, SHIELD_MAX, WEAPON_MAX,
};

verus! {

/// The state of a game, as a password stores it.
#[derive(Clone, Debug, PartialEq, Eq, Hash)]
pub struct GameState {
    /// The hero's name: up to four symbols, a voicing mark counting as one.
    /// A shorter name is read as if filled up with spaces.
    pub hero_name: String,
    /// The hero's experience.
    pub hero_xp: u16,
    /// The gold in the purse.
    pub purse: u16,
    /// The weapon in hand, `0` for none up to `7`.
    pub hero_weapon: u8,
    /// The armor worn, `0` for none up to `7`.
    pub hero_armor: u8,
    /// The shield held, `0` for none up to `3`.
    pub hero_shield: u8,
    /// The number of herbs, at most `6`.
    pub herb_count: u8,
    /// The number of keys, at most `6`.
    pub key_count: u8,
    /// The item in each of the eight inventory slots, `0` for none up to `14`.
    pub inventory: [u8; 8],
    /// Whether the dragon's scale is worn.
    pub flag_equip_dragon_scale: bool,
    /// Whether the warrior's ring is worn.
    pub flag_equip_warrior_ring: bool,
    /// Whether the death necklace was found.
    pub flag_got_death_necklace: bool,
    /// Whether the golem was beaten.
    pub flag_beated_golem: bool,
    /// Whether the dragon was beaten.
    pub flag_beated_dragon: bool,
    /// A number from `0` to `7` that varies the password of one state.
    pub salt: u8,
}

/// A game state as contracts see it.
pub struct StateModel {
    pub hero_name: Seq<char>,
    pub hero_xp: u16,
    pub purse: u16,
    pub hero_weapon: u8,
    pub hero_armor: u8,
    pub hero_shield: u8,
    pub herb_count: u8,
    pub key_count: u8,
    pub inventory: Seq<u8>,
    pub flag_equip_dragon_scale: bool,
    pub flag_equip_warrior_ring: bool,
    pub flag_got_death_necklace: bool,
    pub flag_beated_golem: bool,
    pub flag_beated_dragon: bool,
    pub salt: u8,
}

impl StateModel {
    /// The state of a new game: no name, nothing owned, nothing done.
    pub open spec fn initial() -> StateModel {
        StateModel {
            hero_name: Seq::empty(),
            hero_xp: 0,
            purse: 0,
            hero_weapon: 0,
            hero_armor: 0,
            hero_shield: 0,
            herb_count: 0,
            key_count: 0,
            inventory: Seq::new(8, |i: int| 0u8),
            flag_equip_dragon_scale: false,
            flag_equip_warrior_ring: false,
            flag_got_death_necklace: false,
            flag_beated_golem: false,
            flag_beated_dragon: false,
            salt: 0,
        }
    }

    /// Every number is within its limit. The name is not looked at.
    pub open spec fn in_range(self) -> bool {
        &&& self.hero_weapon <= WEAPON_MAX
        &&& self.hero_armor <= ARMOR_MAX
        &&& self.hero_shield <= SHIELD_MAX
        &&& self.herb_count <= HERB_MAX
        &&& self.key_count <= KEY_MAX
        &&& self.inventory.len() == 8
        &&& inventory_in_order(self.inventory)
        &&& self.salt <= SALT_MAX
    }

    /// The state is valid: its name has a canonical form and every number
    /// is within its limit.
    pub open spec fn valid(self) -> bool {
        spec_normalize_hero_name(self.hero_name) is Ok && self.in_range()
    }

    /// The state with its name in canonical form, or the reason why the name
    /// has none. The numbers are left as they are.
    pub open spec fn normalized(self) -> Result<StateModel, ErrorKind> {
        match spec_normalize_hero_name(self.hero_name) {
            Ok(hero_name) => Ok(StateModel { hero_name, ..self }),
            Err(kind) => Err(kind),
        }
    }
}

impl View for GameState {
    type V = StateModel;

    open spec fn view(&self) -> StateModel {
        StateModel {
            hero_name: self.hero_name@,
            hero_xp: self.hero_xp,
            purse: self.purse,
            hero_weapon: self.hero_weapon,
            hero_armor: self.hero_armor,
            hero_shield: self.hero_shield,
            herb_count: self.herb_count,
            key_count: self.key_count,
            inventory: self.inventory@,
            flag_equip_dragon_scale: self.flag_equip_dragon_scale,
            flag_equip_warrior_ring: self.flag_equip_warrior_ring,
            flag_got_death_necklace: self.flag_got_death_necklace,
            flag_beated_golem: self.flag_beated_golem,
            flag_beated_dragon: self.flag_beated_dragon,
            salt: self.salt,
        }
    }
}

impl Default for GameState {
    /// The state of a new game.
    fn default() -> (state: Self)
        ensures
            state@ == StateModel::initial(),
    {
        let state = GameState {
            hero_name: String::new(),
            hero_xp: 0,
            purse: 0,
            hero_weapon: 0,
            hero_armor: 0,
            hero_shield: 0,
            herb_count: 0,
            key_count: 0,
            inventory: [0u8; 8],
            flag_equip_dragon_scale: false,
            flag_equip_warrior_ring: false,
            flag_got_death_necklace: false,
            flag_beated_golem: false,
            flag_beated_dragon: false,
            salt: 0,
        };
        assert(state.inventory@ == Seq::new(8, |i: int| 0u8));
        state
    }
}

impl GameState {
    /// Checks the state: the name must have a canonical form and every
    /// number must be within its limit.
    pub fn validate(&self) -> (r: Dq1PasswordResult<()>)
        ensures
            outcome(r) == (if self@.valid() {
                Ok(())
            } else {
                Err(ErrorKind::InvalidGameState)
            }),
    {
        validate_hero_name(self.hero_name.as_str())?;
        validate_hero_weapon(self.hero_weapon)?;
        validate_hero_armor(self.hero_armor)?;
        validate_hero_shield(self.hero_shield)?;
        validate_herb_count(self.herb_count)?;
        validate_key_count(self.key_count)?;
        validate_inventory(&self.inventory)?;
        validate_salt(self.salt)?;
        Ok(())
    }

    /// The state with the hero's name in canonical form. An invalid name is
    /// an invalid game state; the numbers are neither checked nor changed.
    pub fn normalize(&self) -> (r: Dq1PasswordResult<Self>)
        ensures
            outcome(r) == self@.normalized(),
    {
        let hero_name = normalize_hero_name(self.hero_name.as_str())?;
        Ok(GameState { hero_name, ..*self })
    }
}

} // verus!
