//! From a password to the game state it stands for.

use vstd::prelude::*;
use crate::alphabet::{hero_symbol, password_char_to_cum, password_index, unpack_hero_name_char};
use crate::crc::{check_byte, crc_of_payload, low_byte, payload_crc};
use crate::encode::{bit, bit_is_set, flag_bit};
use crate::error::{outcome, Dq1PasswordError, Dq1PasswordResult, ErrorKind};
use crate::game_state::{GameState, StateModel};
use crate::normalize::{
    is_password, is_symbol, normalize_password, spec_normalize_password, TextForm,
};
use crate::sixbit::{difference, six_between, sixs_to_bytes, spec_sixs_to_bytes};
use crate::text::{chars_of, string_of};
use crate::validate::{
    inventory_in_order, validate_herb_count, validate_inventory, validate_key_count, HERB_MAX,
    KEY_MAX,
};

verus! {

/// The index in the password alphabet of symbol `i` of a password in
/// canonical form, and 0 before the first symbol.
pub open spec fn password_cum(password: Seq<char>, i: int) -> int
    recommends
        is_password(password),
        -1 <= i < 20,
{
    if i < 0 {
        0
    } else {
        match password_index(password[i]) {
            Some(index) => index as int,
            None => 0,
        }
    }
}

/// The six-bit units that a password in canonical form stands for: each is
/// the difference of the indices of two neighbouring symbols.
pub open spec fn password_sixes(password: Seq<char>) -> Seq<u8>
    recommends
        is_password(password),
{
    Seq::new(20, |i: int| difference(password_cum(password, i - 1), password_cum(password, i)))
}

/// The buffer that a password in canonical form stands for.
pub open spec fn spec_password_to_bytes(password: Seq<char>) -> Seq<u8>
    recommends
        is_password(password),
{
    spec_sixs_to_bytes(password_sixes(password))
}

/// The game state that a buffer holds. The check byte is not looked at.
pub open spec fn spec_bytes_to_state(bytes: Seq<u8>) -> StateModel
    recommends
        bytes.len() == 15,
{
    StateModel {
        hero_name: seq![
            hero_symbol(bytes[5] >> 2),
            hero_symbol((bytes[13] >> 1) & 0x3F),
            hero_symbol(bytes[2] & 0x3F),
            hero_symbol(bytes[7] & 0x3F),
        ],
        hero_xp: (bytes[1] as u16) | ((bytes[12] as u16) << 8),
        purse: (bytes[4] as u16) | ((bytes[9] as u16) << 8),
        hero_weapon: bytes[8] >> 5,
        hero_armor: (bytes[8] >> 2) & 0x7,
        hero_shield: bytes[8] & 0x3,
        herb_count: bytes[10] & 0xF,
        key_count: bytes[10] >> 4,
        inventory: seq![
            bytes[14] & 0xF,
            bytes[14] >> 4,
            bytes[3] & 0xF,
            bytes[3] >> 4,
            bytes[11] & 0xF,
            bytes[11] >> 4,
            bytes[6] & 0xF,
            bytes[6] >> 4,
        ],
        flag_equip_dragon_scale: bit_is_set(bytes[13], 7),
        flag_equip_warrior_ring: bit_is_set(bytes[13], 0),
        flag_got_death_necklace: bit_is_set(bytes[2], 6),
        flag_beated_golem: bit_is_set(bytes[5], 1),
        flag_beated_dragon: bit_is_set(bytes[7], 6),
        salt: bit(bit_is_set(bytes[5], 0)) | (bit(bit_is_set(bytes[2], 7)) << 1) | (bit(
            bit_is_set(bytes[7], 7),
        ) << 2),
    }
}

/// What checking the check byte of a buffer gives: nothing where it is the
/// low byte of the payload's CRC, and else a CRC mismatch that holds the
/// stored byte and the CRC.
pub open spec fn spec_check_bytes_crc(bytes: Seq<u8>) -> Result<(), ErrorKind>
    recommends
        bytes.len() == 15,
{
    if check_byte(bytes) == bytes[0] {
        Ok(())
    } else {
        Err(ErrorKind::CrcMismatch { expect: bytes[0], actual: payload_crc(bytes) })
    }
}

/// Whether the numbers that a password cannot hold out of range by its
/// layout are within their limits: the herbs, the keys and the inventory.
pub open spec fn holds_valid_counts(state: StateModel) -> bool {
    &&& state.herb_count <= HERB_MAX
    &&& state.key_count <= KEY_MAX
    &&& inventory_in_order(state.inventory)
}

/// The game state that a password stands for. The password is brought into
/// canonical form, which may fail as an invalid password; the buffer it
/// stands for must carry the check byte of its payload, else the CRC does
/// not match; and the state that the buffer holds must have its herbs, keys
/// and inventory within their limits, else the game state is invalid.
pub open spec fn spec_decode(password: Seq<char>) -> Result<StateModel, ErrorKind> {
    match spec_normalize_password(password) {
        Err(kind) => Err(kind),
        Ok(normal) => {
            let bytes = spec_password_to_bytes(normal);
            match spec_check_bytes_crc(bytes) {
                Err(kind) => Err(kind),
                Ok(_) => {
                    let state = spec_bytes_to_state(bytes);
                    if holds_valid_counts(state) {
                        Ok(state)
                    } else {
                        Err(ErrorKind::InvalidGameState)
                    }
                },
            }
        },
    }
}

/// Decodes a password into the game state it stands for, with the hero's
/// name in canonical form.
pub fn decode(password: &str) -> (r: Dq1PasswordResult<GameState>)
    ensures
        outcome(r) == spec_decode(password@),
{
    let password = normalize_password(password)?;
    let bytes = password_to_bytes(password.as_str());
    check_bytes_crc(&bytes)?;
    let state = bytes_to_state(&bytes);
    validate_herb_count(state.herb_count)?;
    validate_key_count(state.key_count)?;
    validate_inventory(&state.inventory)?;
    Ok(state)
}

/// The buffer that a password in canonical form stands for.
pub fn password_to_bytes(password: &str) -> (bytes: [u8; 15])
    requires
        is_password(password@),
    ensures
        bytes@ == spec_password_to_bytes(password@),
{
    let cs = chars_of(password);
    let mut sixs = [0u8; 20];
    let mut pre: u8 = 0;
    let mut i: usize = 0;
    while i < 20
        invariant
            i <= 20,
            cs@ == password@,
            is_password(password@),
            pre == password_cum(password@, i - 1),
            pre < 64,
            forall|k: int| 0 <= k < i ==> #[trigger] sixs@[k] == password_sixes(password@)[k],
        decreases 20 - i,
    {
        let cur = symbol_cum(password, &cs, i);
        sixs[i] = six_between(pre, cur);
        pre = cur;
        i += 1;
    }
    assert(sixs@ == password_sixes(password@));
    sixs_to_bytes(&sixs)
}

/// The index in the password alphabet of symbol `i` of a password in
/// canonical form.
fn symbol_cum(password: &str, cs: &Vec<char>, i: usize) -> (cum: u8)
    requires
        is_password(password@),
        cs@ == password@,
        i < 20,
    ensures
        cum == password_cum(password@, i as int),
        cum < 64,
{
    assert(is_symbol(TextForm::Password, password@[i as int]));
    password_char_to_cum(cs[i]).unwrap()
}

/// Checks the check byte of a buffer against the CRC of its payload.
pub fn check_bytes_crc(bytes: &[u8; 15]) -> (r: Dq1PasswordResult<()>)
    ensures
        outcome(r) == spec_check_bytes_crc(bytes@),
{
    let crc_actual = crc_of_payload(bytes);
    if low_byte(crc_actual) != bytes[0] {
        return Err(Dq1PasswordError::crc_mismatch(bytes[0], crc_actual));
    }
    Ok(())
}

/// What the fields of one byte can hold.
proof fn lemma_field_ranges(b: u8)
    by (bit_vector)
    ensures
        b >> 2 < 64,
        (b >> 1) & 0x3F < 64,
        b & 0x3F < 64,
{
}

/// Unpacks the game state that a buffer holds.
pub fn bytes_to_state(bytes: &[u8; 15]) -> (state: GameState)
    ensures
        state@ == spec_bytes_to_state(bytes@),
{
    proof {
        lemma_field_ranges(bytes[5]);
        lemma_field_ranges(bytes[13]);
        lemma_field_ranges(bytes[2]);
        lemma_field_ranges(bytes[7]);
    }
    let hero_name_packed = [
        bytes[5] >> 2,
        (bytes[13] >> 1) & 0x3F,
        bytes[2] & 0x3F,
        bytes[7] & 0x3F,
    ];
    let hero_name = unpack_hero_name(hero_name_packed);
    let hero_xp = (bytes[1] as u16) | ((bytes[12] as u16) << 8);
    let purse = (bytes[4] as u16) | ((bytes[9] as u16) << 8);
    let hero_weapon = bytes[8] >> 5;
    let hero_armor = (bytes[8] >> 2) & 0x7;
    let hero_shield = bytes[8] & 0x3;
    let herb_count = bytes[10] & 0xF;
    let key_count = bytes[10] >> 4;
    let inventory = [
        bytes[14] & 0xF,
        bytes[14] >> 4,
        bytes[3] & 0xF,
        bytes[3] >> 4,
        bytes[11] & 0xF,
        bytes[11] >> 4,
        bytes[6] & 0xF,
        bytes[6] >> 4,
    ];
    let flag_equip_dragon_scale = bit_test(bytes[13], 7);
    let flag_equip_warrior_ring = bit_test(bytes[13], 0);
    let flag_got_death_necklace = bit_test(bytes[2], 6);
    let flag_beated_golem = bit_test(bytes[5], 1);
    let flag_beated_dragon = bit_test(bytes[7], 6);
    let salt = flag_bit(bit_test(bytes[5], 0)) | (flag_bit(bit_test(bytes[2], 7)) << 1) | (
    flag_bit(bit_test(bytes[7], 7)) << 2);
    let state = GameState {
        hero_name,
        hero_xp,
        purse,
        hero_weapon,
        hero_armor,
        hero_shield,
        herb_count,
        key_count,
        inventory,
        flag_equip_dragon_scale,
        flag_equip_warrior_ring,
        flag_got_death_necklace,
        flag_beated_golem,
        flag_beated_dragon,
        salt,
    };
    assert(state@.hero_name == spec_bytes_to_state(bytes@).hero_name);
    assert(state@.inventory == spec_bytes_to_state(bytes@).inventory);
    state
}

/// Whether bit `idx` of `x` is set.
fn bit_test(x: u8, idx: u8) -> (set: bool)
    requires
        idx < 8,
    ensures
        set == bit_is_set(x, idx),
{
    (x & (1u8 << idx)) != 0
}

/// The name made of the symbols of the hero-name alphabet with the given
/// indices.
pub fn unpack_hero_name(packed: [u8; 4]) -> (name: String)
    requires
        forall|i: int| 0 <= i < 4 ==> #[trigger] packed@[i] < 64,
    ensures
        name@ == Seq::new(4, |i: int| hero_symbol(packed@[i])),
{
    let mut symbols: Vec<char> = Vec::with_capacity(4);
    let mut i: usize = 0;
    while i < 4
        invariant
            i <= 4,
            symbols.len() == i,
            forall|k: int| 0 <= k < 4 ==> #[trigger] packed@[k] < 64,
            forall|k: int| 0 <= k < i ==> #[trigger] symbols@[k] == hero_symbol(packed@[k]),
        decreases 4 - i,
    {
        symbols.push(unpack_hero_name_char(packed[i]));
        i += 1;
    }
    string_of(symbols.as_slice())
}

} // verus!
