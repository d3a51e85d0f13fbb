//! The limits of the numbers of a game state, and checks of single fields.

use vstd::prelude::*;
use crate::error::{outcome, Dq1PasswordError, Dq1PasswordResult, ErrorKind};
use crate::normalize::{
    normalize_hero_name, normalize_password, normalize_pattern, spec_normalize_hero_name,
    spec_normalize_password, spec_normalize_pattern,
};
use crate::text::{limit_message, slot_message};

verus! {

/// The largest weapon number.
pub const WEAPON_MAX: u8 = 7;

/// The largest armor number.
pub const ARMOR_MAX: u8 = 7;

/// The largest shield number.
pub const SHIELD_MAX: u8 = 3;

/// The largest number of herbs.
pub const HERB_MAX: u8 = 6;

/// The largest number of keys.
pub const KEY_MAX: u8 = 6;

/// The largest item number of an inventory slot.
pub const TOOL_MAX: u8 = 14;

/// The largest salt.
pub const SALT_MAX: u8 = 7;

/// What a check of a game state's field returns: nothing where the field is
/// in order, and an invalid game state where it is not.
pub open spec fn checked(in_order: bool) -> Result<(), ErrorKind> {
    if in_order {
        Ok(())
    } else {
        Err(ErrorKind::InvalidGameState)
    }
}

/// What a check of a text returns: nothing where the text has a canonical
/// form, and else the reason why it has none.
pub open spec fn accepted(normalized: Result<Seq<char>, ErrorKind>) -> Result<(), ErrorKind> {
    match normalized {
        Ok(_) => Ok(()),
        Err(kind) => Err(kind),
    }
}

/// Every slot of the inventory holds an item number of at most `TOOL_MAX`.
pub open spec fn inventory_in_order(inventory: Seq<u8>) -> bool {
    forall|i: int| 0 <= i < inventory.len() ==> #[trigger] inventory[i] <= TOOL_MAX
}

/// Checks a hero's name, in canonical form or not.
pub fn validate_hero_name(hero_name: &str) -> (r: Dq1PasswordResult<()>)
    ensures
        outcome(r) == accepted(spec_normalize_hero_name(hero_name@)),
{
    match normalize_hero_name(hero_name) {
        Ok(_) => Ok(()),
        Err(e) => Err(e),
    }
}

/// Checks the number of the hero's weapon.
pub fn validate_hero_weapon(weapon: u8) -> (r: Dq1PasswordResult<()>)
    ensures
        outcome(r) == checked(weapon <= WEAPON_MAX),
{
    if weapon > WEAPON_MAX {
        return Err(
            Dq1PasswordError::invalid_game_state(
                limit_message("主人公の装備している武器ID", WEAPON_MAX, weapon),
            ),
        );
    }
    Ok(())
}

/// Checks the number of the hero's armor.
pub fn validate_hero_armor(armor: u8) -> (r: Dq1PasswordResult<()>)
    ensures
        outcome(r) == checked(armor <= ARMOR_MAX),
{
    if armor > ARMOR_MAX {
        return Err(
            Dq1PasswordError::invalid_game_state(
                limit_message("主人公の装備している鎧ID", ARMOR_MAX, armor),
            ),
        );
    }
    Ok(())
}

/// Checks the number of the hero's shield.
pub fn validate_hero_shield(shield: u8) -> (r: Dq1PasswordResult<()>)
    ensures
        outcome(r) == checked(shield <= SHIELD_MAX),
{
    if shield > SHIELD_MAX {
        return Err(
            Dq1PasswordError::invalid_game_state(
                limit_message("主人公の装備している盾ID", SHIELD_MAX, shield),
            ),
        );
    }
    Ok(())
}

/// Checks the number of herbs.
pub fn validate_herb_count(herb: u8) -> (r: Dq1PasswordResult<()>)
    ensures
        outcome(r) == checked(herb <= HERB_MAX),
{
    if herb > HERB_MAX {
        return Err(
            Dq1PasswordError::invalid_game_state(limit_message("やくそう所持数", HERB_MAX, herb)),
        );
    }
    Ok(())
}

/// Checks the number of keys.
pub fn validate_key_count(key: u8) -> (r: Dq1PasswordResult<()>)
    ensures
        outcome(r) == checked(key <= KEY_MAX),
{
    if key > KEY_MAX {
        return Err(
            Dq1PasswordError::invalid_game_state(limit_message("かぎ所持数", KEY_MAX, key)),
        );
    }
    Ok(())
}

/// Checks the eight slots of an inventory.
pub fn validate_inventory(inventory: &[u8]) -> (r: Dq1PasswordResult<()>)
    requires
        inventory@.len() == 8,
    ensures
        outcome(r) == checked(inventory_in_order(inventory@)),
{
    let mut i: usize = 0;
    while i < inventory.len()
        invariant
            i <= inventory.len(),
            inventory@.len() == 8,
            forall|k: int| 0 <= k < i ==> #[trigger] inventory@[k] <= TOOL_MAX,
        decreases inventory.len() - i,
    {
        if let Err(e) = validate_tool(inventory[i]) {
            let inner = e.message();
            return Err(
                Dq1PasswordError::invalid_game_state(slot_message(i as u8, inner.as_str())),
            );
        }
        i += 1;
    }
    Ok(())
}

/// Checks the item number of one inventory slot.
pub fn validate_tool(tool: u8) -> (r: Dq1PasswordResult<()>)
    ensures
        outcome(r) == checked(tool <= TOOL_MAX),
{
    if tool > TOOL_MAX {
        return Err(Dq1PasswordError::invalid_game_state(limit_message("道具ID", TOOL_MAX, tool)));
    }
    Ok(())
}

/// Checks the salt.
pub fn validate_salt(salt: u8) -> (r: Dq1PasswordResult<()>)
    ensures
        outcome(r) == checked(salt <= SALT_MAX),
{
    if salt > SALT_MAX {
        return Err(Dq1PasswordError::invalid_game_state(limit_message("salt ", SALT_MAX, salt)));
    }
    Ok(())
}

/// Checks the form of a password, canonical or not. Whether it decodes is
/// another matter.
pub fn validate_password(password: &str) -> (r: Dq1PasswordResult<()>)
    ensures
        outcome(r) == accepted(spec_normalize_password(password@)),
{
    match normalize_password(password) {
        Ok(_) => Ok(()),
        Err(e) => Err(e),
    }
}

/// Checks the form of a pattern, canonical or not.
pub fn validate_pattern(pattern: &str) -> (r: Dq1PasswordResult<()>)
    ensures
        outcome(r) == accepted(spec_normalize_pattern(pattern@)),
{
    match normalize_pattern(pattern) {
        Ok(_) => Ok(()),
        Err(e) => Err(e),
    }
}

} // verus!
