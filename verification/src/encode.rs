//! From a game state to its password.

use vstd::prelude::*;
use crate::alphabet::{cum_to_password_char, hero_index, pack_hero_name_char, password_symbol};
use crate::crc::{check_byte, crc_of_payload, high_byte, low_byte, spec_high_byte, spec_low_byte};
use crate::error::{outcome, Dq1PasswordResult, ErrorKind};
use crate::game_state::{GameState, StateModel};
use crate::normalize::{is_hero_name, is_symbol, lemma_normal_hero_name, TextForm};
use crate::sixbit::{
    bytes_to_sixes, cumulative, lemma_cumulative_range, lemma_split_three_bytes, next_cum,
};
use crate::text::{chars_of, string_of};

verus! {

/// A flag as a bit.
pub open spec fn bit(flag: bool) -> u8 {
    if flag {
        1
    } else {
        0
    }
}

/// Whether bit `i` of `x` is set.
pub open spec fn bit_is_set(x: u8, i: u8) -> bool {
    x & (1u8 << i) != 0
}

/// The index in the hero-name alphabet of each of the four symbols of a
/// name in canonical form.
pub open spec fn hero_indices(name: Seq<char>) -> Seq<u8>
    recommends
        is_hero_name(name),
{
    Seq::new(
        4,
        |i: int|
            match hero_index(name[i]) {
                Some(index) => index,
                None => 0,
            },
    )
}

/// The fifteen bytes that hold a game state, with 0 in place of the check
/// byte. The name is in canonical form and every number is within its
/// limit.
pub open spec fn spec_payload(state: StateModel) -> Seq<u8>
    recommends
        is_hero_name(state.hero_name),
        state.in_range(),
{
    let name = hero_indices(state.hero_name);
    let inventory = state.inventory;
    seq![
        0u8,
        spec_low_byte(state.hero_xp),
        name[2] | (bit(state.flag_got_death_necklace) << 6) | (bit(bit_is_set(state.salt, 1)) << 7),
        inventory[2] | (inventory[3] << 4),
        spec_low_byte(state.purse),
        bit(bit_is_set(state.salt, 0)) | (bit(state.flag_beated_golem) << 1) | (name[0] << 2),
        inventory[6] | (inventory[7] << 4),
        name[3] | (bit(state.flag_beated_dragon) << 6) | (bit(bit_is_set(state.salt, 2)) << 7),
        state.hero_shield | (state.hero_armor << 2) | (state.hero_weapon << 5),
        spec_high_byte(state.purse),
        state.herb_count | (state.key_count << 4),
        inventory[4] | (inventory[5] << 4),
        spec_high_byte(state.hero_xp),
        bit(state.flag_equip_warrior_ring) | (name[1] << 1)
            | (bit(state.flag_equip_dragon_scale) << 7),
        inventory[0] | (inventory[1] << 4),
    ]
}

/// The buffer that holds a game state: its fifteen bytes, the first of them
/// the check byte of the others.
pub open spec fn spec_state_to_bytes(state: StateModel) -> Seq<u8>
    recommends
        is_hero_name(state.hero_name),
        state.in_range(),
{
    spec_payload(state).update(0, check_byte(spec_payload(state)))
}

/// The password that renders a buffer: symbol `i` is the symbol of the
/// password alphabet whose index is the running sum of the buffer's six-bit
/// units up to `i`.
pub open spec fn spec_bytes_to_password(bytes: Seq<u8>) -> Seq<char>
    recommends
        bytes.len() == 15,
{
    Seq::new(20, |i: int| password_symbol(cumulative(bytes_to_sixes(bytes), i) as u8))
}

/// The password of a game state: that of the buffer which holds the state
/// with its name brought into canonical form. Only a valid state has one:
/// a state whose name has no canonical form, or with a number above its
/// limit, is an invalid game state.
pub open spec fn spec_encode(state: StateModel) -> Result<Seq<char>, ErrorKind> {
    if state.valid() {
        match state.normalized() {
            Ok(normal) => Ok(spec_bytes_to_password(spec_state_to_bytes(normal))),
            Err(kind) => Err(kind),
        }
    } else {
        Err(ErrorKind::InvalidGameState)
    }
}

/// Encodes a game state as a password. The state is checked first: a name
/// that has no canonical form, or a number above its limit, is an invalid
/// game state. The name is then brought into canonical form and the state
/// is packed and rendered.
pub fn encode(state: &GameState) -> (r: Dq1PasswordResult<String>)
    ensures
        outcome(r) == spec_encode(state@),
{
    let ghost old_name = state.hero_name@;
    state.validate()?;
    let state = state.normalize()?;
    proof {
        lemma_normal_hero_name(old_name);
    }
    let bytes = state_to_bytes(&state);
    Ok(bytes_to_password(&bytes))
}

/// A flag as a bit.
pub fn flag_bit(flag: bool) -> (b: u8)
    ensures
        b == bit(flag),
{
    if flag {
        1
    } else {
        0
    }
}

/// Bit `idx` of `x`.
fn bit_test(x: u8, idx: u8) -> (b: u8)
    requires
        idx < 8,
    ensures
        b == bit(bit_is_set(x, idx)),
{
    flag_bit((x & (1u8 << idx)) != 0)
}

/// Packs a game state into its buffer. The name is in canonical form and
/// every number is within its limit, so that each has the bits of its
/// field to itself.
pub fn state_to_bytes(state: &GameState) -> (bytes: [u8; 15])
    requires
        is_hero_name(state.hero_name@),
        state@.in_range(),
    ensures
        bytes@ == spec_state_to_bytes(state@),
{
    let name = pack_hero_name(state.hero_name.as_str());
    let mut bytes = [0u8; 15];
    bytes[1] = low_byte(state.hero_xp);
    bytes[2] = name[2] | (flag_bit(state.flag_got_death_necklace) << 6) | (bit_test(state.salt, 1)
        << 7);
    bytes[3] = state.inventory[2] | (state.inventory[3] << 4);
    bytes[4] = low_byte(state.purse);
    bytes[5] = bit_test(state.salt, 0) | (flag_bit(state.flag_beated_golem) << 1) | (name[0] << 2);
    bytes[6] = state.inventory[6] | (state.inventory[7] << 4);
    bytes[7] = name[3] | (flag_bit(state.flag_beated_dragon) << 6) | (bit_test(state.salt, 2) << 7);
    bytes[8] = state.hero_shield | (state.hero_armor << 2) | (state.hero_weapon << 5);
    bytes[9] = high_byte(state.purse);
    bytes[10] = state.herb_count | (state.key_count << 4);
    bytes[11] = state.inventory[4] | (state.inventory[5] << 4);
    bytes[12] = high_byte(state.hero_xp);
    bytes[13] = flag_bit(state.flag_equip_warrior_ring) | (name[1] << 1) | (flag_bit(
        state.flag_equip_dragon_scale,
    ) << 7);
    bytes[14] = state.inventory[0] | (state.inventory[1] << 4);
    assert(bytes@ == spec_payload(state@));
    bytes[0] = low_byte(crc_of_payload(&bytes));
    bytes
}

/// The index in the hero-name alphabet of each symbol of a name in
/// canonical form.
pub fn pack_hero_name(hero_name: &str) -> (packed: [u8; 4])
    requires
        is_hero_name(hero_name@),
    ensures
        packed@ == hero_indices(hero_name@),
        forall|i: int| 0 <= i < 4 ==> #[trigger] packed@[i] < 64,
{
    let cs = chars_of(hero_name);
    let mut packed = [0u8; 4];
    let mut i: usize = 0;
    while i < 4
        invariant
            i <= 4,
            cs@ == hero_name@,
            is_hero_name(hero_name@),
            forall|k: int| 0 <= k < i ==> #[trigger] packed@[k] == hero_indices(hero_name@)[k],
            forall|k: int| 0 <= k < i ==> #[trigger] packed@[k] < 64,
        decreases 4 - i,
    {
        assert(is_symbol(TextForm::HeroName, hero_name@[i as int]));
        packed[i] = pack_hero_name_char(cs[i]).unwrap();
        i += 1;
    }
    packed
}

/// Renders a buffer as a password.
pub fn bytes_to_password(bytes: &[u8; 15]) -> (password: String)
    ensures
        password@ == spec_bytes_to_password(bytes@),
{
    let mut symbols: Vec<char> = Vec::with_capacity(20);
    let ghost sixes = bytes_to_sixes(bytes@);
    let mut cum: u8 = 0;
    let mut g: usize = 0;
    while g < 5
        invariant
            g <= 5,
            sixes == bytes_to_sixes(bytes@),
            cum == cumulative(sixes, 4 * g - 1),
            symbols.len() == 4 * g,
            forall|i: int|
                0 <= i < 4 * g ==> #[trigger] symbols@[i] == password_symbol(
                    cumulative(sixes, i) as u8,
                ),
        decreases 5 - g,
    {
        let b0 = bytes[3 * g];
        let b1 = bytes[3 * g + 1];
        let b2 = bytes[3 * g + 2];
        proof {
            lemma_split_three_bytes(b0, b1, b2);
            lemma_cumulative_range(sixes, 4 * g - 1);
            lemma_cumulative_range(sixes, 4 * g);
            lemma_cumulative_range(sixes, 4 * g + 1);
            lemma_cumulative_range(sixes, 4 * g + 2);
            lemma_cumulative_range(sixes, 4 * g + 3);
            assert(sixes[4 * g] == b0 & 0x3F);
            assert(sixes[4 * g + 1] == (b0 >> 6) | ((b1 & 0xF) << 2));
            assert(sixes[4 * g + 2] == (b1 >> 4) | ((b2 & 0x3) << 4));
            assert(sixes[4 * g + 3] == b2 >> 2);
        }
        cum = next_cum(cum, b0 & 0x3F);
        symbols.push(cum_to_password_char(cum));
        cum = next_cum(cum, (b0 >> 6) | ((b1 & 0xF) << 2));
        symbols.push(cum_to_password_char(cum));
        cum = next_cum(cum, (b1 >> 4) | ((b2 & 0x3) << 4));
        symbols.push(cum_to_password_char(cum));
        cum = next_cum(cum, b2 >> 2);
        symbols.push(cum_to_password_char(cum));
        g += 1;
    }
    string_of(symbols.as_slice())
}

} // verus!
