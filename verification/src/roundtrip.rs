//! Decoding and encoding undo each other, and decoding fails where it must.

use vstd::prelude::*;
use crate::alphabet::{
    hero_index, hero_symbol, lemma_hero_alphabet, lemma_password_alphabet, password_index,
    password_symbol,
};
use crate::crc::{check_byte, lemma_bytes_of_two, lemma_two_bytes, payload_crc};
use crate::decode::{
    holds_valid_counts, password_cum, password_sixes, spec_bytes_to_state, spec_check_bytes_crc,
    spec_decode, spec_password_to_bytes,
};
use crate::encode::{
    bit, bit_is_set, hero_indices, spec_bytes_to_password, spec_encode, spec_payload,
    spec_state_to_bytes,
};
use crate::error::ErrorKind;
use crate::game_state::StateModel;
use crate::normalize::{
    char_expansion, is_hero_name, is_password, is_symbol, is_white_space, lemma_expansion_fixed,
    lemma_normal_hero_name, padded_hero_name, spec_normalize_hero_name, spec_normalize_password,
    TextForm,
};
use crate::sixbit::{
    bytes_to_sixes, cumulative, lemma_bytes_sixes_bytes, lemma_cumulative_of_difference,
    lemma_cumulative_range, lemma_difference_of_cumulative, lemma_sixes_bytes_sixes,
    lemma_sixes_in_range,
};
use crate::validate::{ARMOR_MAX, HERB_MAX, KEY_MAX, SALT_MAX, SHIELD_MAX, TOOL_MAX, WEAPON_MAX};

verus! {

/// A password in canonical form is its own canonical form.
pub proof fn lemma_password_is_normal(password: Seq<char>)
    requires
        is_password(password),
    ensures
        spec_normalize_password(password) == Ok::<Seq<char>, ErrorKind>(password),
{
    lemma_password_alphabet();
    assert forall|i: int| 0 <= i < password.len() implies char_expansion(
        TextForm::Password,
        #[trigger] password[i],
    ) == seq![password[i]] by {
        assert(is_symbol(TextForm::Password, password[i]));
        let index = password_index(password[i])->0;
        assert(password_symbol(index) == password[i]);
        assert(!is_white_space(password_symbol(index)));
    }
    lemma_expansion_fixed(TextForm::Password, password);
}

/// A hero's name in canonical form is its own canonical form.
pub proof fn lemma_hero_name_is_normal(name: Seq<char>)
    requires
        is_hero_name(name),
    ensures
        spec_normalize_hero_name(name) == Ok::<Seq<char>, ErrorKind>(name),
{
    lemma_hero_alphabet();
    assert forall|i: int| 0 <= i < name.len() implies char_expansion(
        TextForm::HeroName,
        #[trigger] name[i],
    ) == seq![name[i]] by {
        assert(is_symbol(TextForm::HeroName, name[i]));
        let index = hero_index(name[i])->0;
        assert(hero_symbol(index) == name[i]);
        assert(char_expansion(TextForm::HeroName, hero_symbol(index)) == seq![hero_symbol(index)]);
    }
    lemma_expansion_fixed(TextForm::HeroName, name);
    assert(padded_hero_name(name) == name);
}

/// The password of a buffer is in canonical form.
pub proof fn lemma_rendered_is_password(bytes: Seq<u8>)
    requires
        bytes.len() == 15,
    ensures
        is_password(spec_bytes_to_password(bytes)),
{
    let password = spec_bytes_to_password(bytes);
    lemma_password_alphabet();
    assert forall|i: int| 0 <= i < password.len() implies is_symbol(
        TextForm::Password,
        #[trigger] password[i],
    ) by {
        lemma_cumulative_range(bytes_to_sixes(bytes), i);
    }
}

/// The buffer that the password of a buffer stands for is that buffer.
pub proof fn lemma_bytes_password_bytes(bytes: Seq<u8>)
    requires
        bytes.len() == 15,
    ensures
        spec_password_to_bytes(spec_bytes_to_password(bytes)) == bytes,
{
    let sixes = bytes_to_sixes(bytes);
    let password = spec_bytes_to_password(bytes);
    lemma_password_alphabet();
    lemma_sixes_in_range(bytes);
    assert forall|i: int| -1 <= i < 20 implies password_cum(password, i) == cumulative(
        sixes,
        i,
    ) by {
        lemma_cumulative_range(sixes, i);
    }
    assert forall|i: int| 0 <= i < 20 implies #[trigger] password_sixes(password)[i]
        == sixes[i] by {
        lemma_difference_of_cumulative(sixes, i);
    }
    assert(password_sixes(password) == sixes);
    lemma_bytes_sixes_bytes(bytes);
}

/// The password of the buffer that a password in canonical form stands for
/// is that password.
pub proof fn lemma_password_bytes_password(password: Seq<char>)
    requires
        is_password(password),
    ensures
        spec_password_to_bytes(password).len() == 15,
        spec_bytes_to_password(spec_password_to_bytes(password)) == password,
{
    let sixes = password_sixes(password);
    let bytes = spec_password_to_bytes(password);
    lemma_password_alphabet();
    assert forall|i: int| -1 <= i < 20 implies 0 <= #[trigger] password_cum(password, i) < 64 by {
        if i >= 0 {
            assert(is_symbol(TextForm::Password, password[i]));
        }
    }
    assert forall|i: int| 0 <= i < 20 implies #[trigger] sixes[i] < 64 by {
        lemma_cumulative_of_difference(password_cum(password, i - 1), password_cum(password, i));
    }
    lemma_sixes_bytes_sixes(sixes);
    lemma_cumulative_is_index(password, 19);
    assert forall|i: int| 0 <= i < 20 implies #[trigger] spec_bytes_to_password(bytes)[i]
        == password[i] by {
        lemma_cumulative_is_index(password, i);
        assert(is_symbol(TextForm::Password, password[i]));
    }
    assert(spec_bytes_to_password(bytes) == password);
}

/// The running sums of the units of a password are the indices of its
/// symbols.
proof fn lemma_cumulative_is_index(password: Seq<char>, i: int)
    requires
        is_password(password),
        -1 <= i < 20,
    ensures
        cumulative(password_sixes(password), i) == password_cum(password, i),
    decreases i + 1,
{
    if i >= 0 {
        lemma_cumulative_is_index(password, i - 1);
        lemma_password_alphabet();
        assert(is_symbol(TextForm::Password, password[i]));
        if i >= 1 {
            assert(is_symbol(TextForm::Password, password[i - 1]));
        }
        lemma_cumulative_of_difference(password_cum(password, i - 1), password_cum(password, i));
    }
}

/// Reading a byte made of a six-bit field and two flags gives them back.
proof fn lemma_six_and_flags(six: u8, low: bool, high: bool)
    by (bit_vector)
    requires
        six < 64,
    ensures
        (six | (bit(low) << 6) | (bit(high) << 7)) & 0x3F == six,
        bit_is_set(six | (bit(low) << 6) | (bit(high) << 7), 6) == low,
        bit_is_set(six | (bit(low) << 6) | (bit(high) << 7), 7) == high,
        (bit(low) | (bit(high) << 1) | (six << 2)) >> 2 == six,
        bit_is_set(bit(low) | (bit(high) << 1) | (six << 2), 0) == low,
        bit_is_set(bit(low) | (bit(high) << 1) | (six << 2), 1) == high,
        ((bit(low) | (six << 1) | (bit(high) << 7)) >> 1) & 0x3F == six,
        bit_is_set(bit(low) | (six << 1) | (bit(high) << 7), 0) == low,
        bit_is_set(bit(low) | (six << 1) | (bit(high) << 7), 7) == high,
{
}

/// Reading a byte made of two or three small numbers gives them back.
proof fn lemma_small_numbers(a: u8, b: u8, c: u8)
    by (bit_vector)
    requires
        a < 16,
        b < 16,
    ensures
        (a | (b << 4)) & 0xF == a,
        (a | (b << 4)) >> 4 == b,
        a < 4 && b < 8 && c < 8 ==> (a | (b << 2) | (c << 5)) >> 5 == c,
        a < 4 && b < 8 && c < 8 ==> ((a | (b << 2) | (c << 5)) >> 2) & 0x7 == b,
        a < 4 && b < 8 && c < 8 ==> (a | (b << 2) | (c << 5)) & 0x3 == a,
        a < 8 ==> bit(bit_is_set(a, 0)) | (bit(bit_is_set(a, 1)) << 1) | (bit(bit_is_set(a, 2))
            << 2) == a,
{
}

/// Putting together what was read from a byte gives the byte back.
proof fn lemma_byte_from_fields(x: u8)
    by (bit_vector)
    ensures
        (x & 0x3F) | (bit(bit_is_set(x, 6)) << 6) | (bit(bit_is_set(x, 7)) << 7) == x,
        bit(bit_is_set(x, 0)) | (bit(bit_is_set(x, 1)) << 1) | ((x >> 2) << 2) == x,
        bit(bit_is_set(x, 0)) | (((x >> 1) & 0x3F) << 1) | (bit(bit_is_set(x, 7)) << 7) == x,
        (x & 0xF) | ((x >> 4) << 4) == x,
        (x & 0x3) | (((x >> 2) & 0x7) << 2) | ((x >> 5) << 5) == x,
        x >> 2 < 64,
        (x >> 1) & 0x3F < 64,
        x & 0x3F < 64,
{
}

/// The bits of a salt read from three flags are those flags.
proof fn lemma_salt_bits(b0: bool, b1: bool, b2: bool)
    by (bit_vector)
    ensures
        bit_is_set(bit(b0) | (bit(b1) << 1) | (bit(b2) << 2), 0) == b0,
        bit_is_set(bit(b0) | (bit(b1) << 1) | (bit(b2) << 2), 1) == b1,
        bit_is_set(bit(b0) | (bit(b1) << 1) | (bit(b2) << 2), 2) == b2,
{
}

/// The state held by the buffer that holds a state is that state, provided
/// its name is in canonical form and its numbers are within their limits.
pub proof fn lemma_state_bytes_state(state: StateModel)
    requires
        is_hero_name(state.hero_name),
        state.in_range(),
    ensures
        spec_state_to_bytes(state).len() == 15,
        spec_check_bytes_crc(spec_state_to_bytes(state)) == Ok::<(), ErrorKind>(()),
        spec_bytes_to_state(spec_state_to_bytes(state)) == state,
{
    let payload = spec_payload(state);
    let bytes = spec_state_to_bytes(state);
    let name = hero_indices(state.hero_name);
    let inventory = state.inventory;
    let back = spec_bytes_to_state(bytes);
    assert(bytes.subrange(1, 15) == payload.subrange(1, 15));
    lemma_hero_alphabet();
    assert forall|i: int| 0 <= i < 4 implies #[trigger] name[i] < 64 && hero_symbol(name[i])
        == state.hero_name[i] by {
        assert(is_symbol(TextForm::HeroName, state.hero_name[i]));
    }
    assert forall|i: int| 0 <= i < 8 implies #[trigger] inventory[i] < 16 by {}
    lemma_six_and_flags(name[2], state.flag_got_death_necklace, bit_is_set(state.salt, 1));
    lemma_six_and_flags(name[0], bit_is_set(state.salt, 0), state.flag_beated_golem);
    lemma_six_and_flags(name[3], state.flag_beated_dragon, bit_is_set(state.salt, 2));
    lemma_six_and_flags(name[1], state.flag_equip_warrior_ring, state.flag_equip_dragon_scale);
    lemma_small_numbers(inventory[0], inventory[1], 0);
    lemma_small_numbers(inventory[2], inventory[3], 0);
    lemma_small_numbers(inventory[4], inventory[5], 0);
    lemma_small_numbers(inventory[6], inventory[7], 0);
    lemma_small_numbers(state.herb_count, state.key_count, 0);
    lemma_small_numbers(state.hero_shield, state.hero_armor, state.hero_weapon);
    lemma_small_numbers(state.salt, 0, 0);
    lemma_two_bytes(state.hero_xp);
    lemma_two_bytes(state.purse);
    assert(back.hero_name == state.hero_name);
    assert(back.inventory == state.inventory);
}

/// The name held by a buffer is in canonical form, and the indices of its
/// symbols are the four six-bit fields it was read from.
proof fn lemma_unpacked_name(bytes: Seq<u8>)
    requires
        bytes.len() == 15,
    ensures
        is_hero_name(spec_bytes_to_state(bytes).hero_name),
        hero_indices(spec_bytes_to_state(bytes).hero_name) == seq![
            bytes[5] >> 2,
            (bytes[13] >> 1) & 0x3F,
            bytes[2] & 0x3F,
            bytes[7] & 0x3F,
        ],
{
    let name = spec_bytes_to_state(bytes).hero_name;
    let fields = seq![bytes[5] >> 2, (bytes[13] >> 1) & 0x3F, bytes[2] & 0x3F, bytes[7] & 0x3F];
    lemma_hero_alphabet();
    lemma_byte_from_fields(bytes[5]);
    lemma_byte_from_fields(bytes[13]);
    lemma_byte_from_fields(bytes[2]);
    lemma_byte_from_fields(bytes[7]);
    assert forall|i: int| 0 <= i < 4 implies is_symbol(TextForm::HeroName, #[trigger] name[i])
        && hero_indices(name)[i] == fields[i] by {
        assert(name[i] == hero_symbol(fields[i]));
        assert(fields[i] < 64);
    }
    assert(hero_indices(name) == fields);
}

/// The buffer that holds the state held by a buffer is that buffer,
/// provided it carries the check byte of its payload.
pub proof fn lemma_bytes_state_bytes(bytes: Seq<u8>)
    requires
        bytes.len() == 15,
        check_byte(bytes) == bytes[0],
    ensures
        is_hero_name(spec_bytes_to_state(bytes).hero_name),
        spec_state_to_bytes(spec_bytes_to_state(bytes)) == bytes,
{
    let state = spec_bytes_to_state(bytes);
    let payload = spec_payload(state);
    let name = hero_indices(state.hero_name);
    lemma_unpacked_name(bytes);
    assert(name[0] == bytes[5] >> 2);
    assert(name[1] == (bytes[13] >> 1) & 0x3F);
    assert(name[2] == bytes[2] & 0x3F);
    assert(name[3] == bytes[7] & 0x3F);
    lemma_salt_bits(bit_is_set(bytes[5], 0), bit_is_set(bytes[2], 7), bit_is_set(bytes[7], 7));
    assert(payload[1] == bytes[1]) by {
        lemma_bytes_of_two(bytes[1], bytes[12]);
    }
    assert(payload[2] == bytes[2]) by {
        lemma_byte_from_fields(bytes[2]);
    }
    assert(payload[3] == bytes[3]) by {
        lemma_byte_from_fields(bytes[3]);
    }
    assert(payload[4] == bytes[4]) by {
        lemma_bytes_of_two(bytes[4], bytes[9]);
    }
    assert(payload[5] == bytes[5]) by {
        lemma_byte_from_fields(bytes[5]);
    }
    assert(payload[6] == bytes[6]) by {
        lemma_byte_from_fields(bytes[6]);
    }
    assert(payload[7] == bytes[7]) by {
        lemma_byte_from_fields(bytes[7]);
    }
    assert(payload[8] == bytes[8]) by {
        lemma_byte_from_fields(bytes[8]);
    }
    assert(payload[9] == bytes[9]) by {
        lemma_bytes_of_two(bytes[4], bytes[9]);
    }
    assert(payload[10] == bytes[10]) by {
        lemma_byte_from_fields(bytes[10]);
    }
    assert(payload[11] == bytes[11]) by {
        lemma_byte_from_fields(bytes[11]);
    }
    assert(payload[12] == bytes[12]) by {
        lemma_bytes_of_two(bytes[1], bytes[12]);
    }
    assert(payload[13] == bytes[13]) by {
        lemma_byte_from_fields(bytes[13]);
    }
    assert(payload[14] == bytes[14]) by {
        lemma_byte_from_fields(bytes[14]);
    }
    assert(payload.subrange(1, 15) == bytes.subrange(1, 15));
    assert(spec_state_to_bytes(state) == bytes);
}

/// Decoding the password of a valid game state gives the state back, with
/// its name in canonical form.
pub proof fn law_decode_encode(state: StateModel)
    requires
        state.valid(),
    ensures
        spec_encode(state) matches Ok(password) && spec_decode(password) == state.normalized(),
{
    lemma_normal_hero_name(state.hero_name);
    let normal = state.normalized()->Ok_0;
    let bytes = spec_state_to_bytes(normal);
    let password = spec_bytes_to_password(bytes);
    lemma_state_bytes_state(normal);
    lemma_rendered_is_password(bytes);
    lemma_password_is_normal(password);
    lemma_bytes_password_bytes(bytes);
}

/// Encoding the game state that a password in canonical form decodes to
/// gives the password back.
pub proof fn law_encode_decode(password: Seq<char>)
    requires
        is_password(password),
        spec_decode(password) is Ok,
    ensures
        spec_decode(password) matches Ok(state) && spec_encode(state) == Ok::<Seq<char>, ErrorKind>(
            password,
        ),
{
    lemma_password_is_normal(password);
    let bytes = spec_password_to_bytes(password);
    lemma_password_bytes_password(password);
    lemma_bytes_state_bytes(bytes);
    let state = spec_bytes_to_state(bytes);
    lemma_unpacked_is_valid(bytes);
    assert(state.normalized() == Ok::<StateModel, ErrorKind>(state));
}

/// Encoding succeeds on the valid game states and on no others, and fails
/// as an invalid game state.
pub proof fn law_encode_needs_valid(state: StateModel)
    ensures
        spec_encode(state) is Ok <==> state.valid(),
        !state.valid() ==> spec_encode(state) == Err::<Seq<char>, ErrorKind>(
            ErrorKind::InvalidGameState,
        ),
{
}

/// Decoding the password of a buffer whose first byte is not the check
/// byte of its payload is a CRC mismatch, which holds that byte and the CRC
/// of the payload.
pub proof fn law_crc_mismatch(bytes: Seq<u8>)
    requires
        bytes.len() == 15,
        check_byte(bytes) != bytes[0],
    ensures
        spec_decode(spec_bytes_to_password(bytes)) == Err::<StateModel, ErrorKind>(
            ErrorKind::CrcMismatch { expect: bytes[0], actual: payload_crc(bytes) },
        ),
{
    let password = spec_bytes_to_password(bytes);
    lemma_rendered_is_password(bytes);
    lemma_password_is_normal(password);
    lemma_bytes_password_bytes(bytes);
}

/// Decoding the password of a buffer that carries the check byte of its
/// payload, but holds herbs, keys or an inventory slot above their limits,
/// is an invalid game state.
pub proof fn law_invalid_counts(bytes: Seq<u8>)
    requires
        bytes.len() == 15,
        check_byte(bytes) == bytes[0],
        !holds_valid_counts(spec_bytes_to_state(bytes)),
    ensures
        spec_decode(spec_bytes_to_password(bytes)) == Err::<StateModel, ErrorKind>(
            ErrorKind::InvalidGameState,
        ),
{
    let password = spec_bytes_to_password(bytes);
    lemma_rendered_is_password(bytes);
    lemma_password_is_normal(password);
    lemma_bytes_password_bytes(bytes);
}

/// A game state with a number above its limit is not valid, whatever its
/// name.
pub proof fn law_out_of_range(state: StateModel)
    requires
        state.hero_weapon > WEAPON_MAX || state.hero_armor > ARMOR_MAX || state.hero_shield
            > SHIELD_MAX || state.herb_count > HERB_MAX || state.key_count > KEY_MAX || state.salt
            > SALT_MAX || exists|i: int|
            0 <= i < state.inventory.len() && #[trigger] state.inventory[i] > TOOL_MAX,
    ensures
        !state.valid(),
{
}

/// What one byte and three flags can hold is within the limits of the
/// numbers that have the room of their limits.
proof fn lemma_bounded_fields(x: u8, b0: bool, b1: bool, b2: bool)
    by (bit_vector)
    ensures
        x >> 5 <= 7,
        (x >> 2) & 0x7 <= 7,
        x & 0x3 <= 3,
        bit(b0) | (bit(b1) << 1) | (bit(b2) << 2) <= 7,
{
}

/// The game state that a buffer holds is valid if its herbs, keys and
/// inventory are within their limits, and its name is in canonical form.
proof fn lemma_unpacked_is_valid(bytes: Seq<u8>)
    requires
        bytes.len() == 15,
        holds_valid_counts(spec_bytes_to_state(bytes)),
    ensures
        spec_bytes_to_state(bytes).valid(),
        spec_bytes_to_state(bytes).normalized() == Ok::<StateModel, ErrorKind>(
            spec_bytes_to_state(bytes),
        ),
{
    let state = spec_bytes_to_state(bytes);
    lemma_unpacked_name(bytes);
    lemma_hero_name_is_normal(state.hero_name);
    lemma_bounded_fields(
        bytes[8],
        bit_is_set(bytes[5], 0),
        bit_is_set(bytes[2], 7),
        bit_is_set(bytes[7], 7),
    );
}

/// The game state that a password decodes to is valid, and its name is in
/// canonical form.
pub proof fn law_decoded_is_valid(password: Seq<char>)
    requires
        spec_decode(password) is Ok,
    ensures
        spec_decode(password) matches Ok(state) && state.valid() && state.normalized() == Ok::<
            StateModel,
            ErrorKind,
        >(state),
{
    match spec_normalize_password(password) {
        Ok(normal) => {
            lemma_unpacked_is_valid(spec_password_to_bytes(normal));
        },
        Err(_) => {},
    }
}

} // verus!
