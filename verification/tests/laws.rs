use dq1_password::decode::password_to_bytes;
use dq1_password::encode::bytes_to_password;
use dq1_password::{crc_update, decode, encode, generate, Dq1PasswordError, GameState};

fn states() -> Vec<GameState> {
    let names = ["", "あ", "がぱ", "０１２３", "　ー-", "ゔ", "っゃゅょ", "んをわろ"];
    let mut states = Vec::new();
    for (n, name) in names.iter().enumerate() {
        let n = n as u16;
        states.push(GameState {
            hero_name: (*name).to_owned(),
            hero_xp: n.wrapping_mul(7919),
            purse: 65535 - n.wrapping_mul(4099),
            hero_weapon: (n % 8) as u8,
            hero_armor: ((n + 3) % 8) as u8,
            hero_shield: (n % 4) as u8,
            herb_count: (n % 7) as u8,
            key_count: ((n + 2) % 7) as u8,
            inventory: [
                (n % 15) as u8,
                14,
                0,
                ((n + 5) % 15) as u8,
                7,
                ((n * 3) % 15) as u8,
                1,
                14 - (n % 15) as u8,
            ],
            flag_equip_dragon_scale: n % 2 == 0,
            flag_equip_warrior_ring: n % 3 == 0,
            flag_got_death_necklace: n % 2 == 1,
            flag_beated_golem: n % 5 == 0,
            flag_beated_dragon: n % 4 == 1,
            salt: (n % 8) as u8,
        });
    }
    states.push(GameState {
        hero_name: "゛゜- ".to_owned(),
        hero_xp: 65535,
        purse: 65535,
        hero_weapon: 7,
        hero_armor: 7,
        hero_shield: 3,
        herb_count: 6,
        key_count: 6,
        inventory: [14; 8],
        flag_equip_dragon_scale: true,
        flag_equip_warrior_ring: true,
        flag_got_death_necklace: true,
        flag_beated_golem: true,
        flag_beated_dragon: true,
        salt: 7,
    });
    states
}

#[test]
fn decoding_an_encoded_state_gives_it_back() {
    for state in states() {
        assert!(state.validate().is_ok());
        let password = encode(&state).unwrap();
        assert_eq!(password.chars().count(), 20);
        assert_eq!(decode(&password), state.normalize());
    }
}

#[test]
fn every_salt_gives_another_password_of_the_same_state() {
    let mut passwords = Vec::new();
    for salt in 0..8 {
        let state = GameState { salt, ..Default::default() };
        let password = encode(&state).unwrap();
        assert_eq!(decode(&password).unwrap().salt, salt);
        assert!(!passwords.contains(&password));
        passwords.push(password);
    }
}

#[test]
fn encoding_a_decoded_password_gives_it_back() {
    let passwords = [
        "つにこへむゆるわげげだどべうきさそさには",
        "ざぼちずどぢぎきつたうずせれえむるのぢえ",
    ];
    for password in passwords {
        let state = decode(password).unwrap();
        assert_eq!(encode(&state), Ok(password.to_owned()));
    }
    for password in generate("????????????????????", 50).unwrap() {
        let state = decode(&password).unwrap();
        assert_eq!(encode(&state), Ok(password));
    }
    let spaced = "つにこへむ ゆるわげげ　だどべうき\nさそさには";
    let state = decode(spaced).unwrap();
    assert_eq!(encode(&state), Ok("つにこへむゆるわげげだどべうきさそさには".to_owned()));
}

#[test]
fn a_changed_payload_byte_is_a_crc_mismatch() {
    let good = password_to_bytes("ざぼちずどぢぎきつたうずせれえむるのぢえ");
    for position in 1..15 {
        for bit in 0..8 {
            let mut bytes = good;
            bytes[position] ^= 1 << bit;
            let crc = bytes[1..].iter().fold(0, |crc, &b| crc_update(crc, b, 8));
            assert_ne!(u16::from(bytes[0]), crc & 0xFF);
            assert_eq!(
                decode(&bytes_to_password(&bytes)),
                Err(Dq1PasswordError::CrcMismatch { expect: bytes[0], actual: crc })
            );
        }
    }
}

#[test]
fn a_changed_check_byte_is_a_crc_mismatch() {
    let good = password_to_bytes("つにこへむゆるわげげだどべうきさそさには");
    let crc = good[1..].iter().fold(0, |crc, &b| crc_update(crc, b, 8));
    for other in 0..=255u8 {
        if other == good[0] {
            continue;
        }
        let mut bytes = good;
        bytes[0] = other;
        assert_eq!(
            decode(&bytes_to_password(&bytes)),
            Err(Dq1PasswordError::CrcMismatch { expect: other, actual: crc })
        );
    }
}

fn with_check_byte(mut bytes: [u8; 15]) -> [u8; 15] {
    let crc = bytes[1..].iter().fold(0, |crc, &b| crc_update(crc, b, 8));
    bytes[0] = (crc & 0xFF) as u8;
    bytes
}

#[test]
fn a_buffer_with_a_count_out_of_range_is_an_invalid_game_state() {
    let good = password_to_bytes("ざぼちずどぢぎきつたうずせれえむるのぢえ");
    // The herbs and the keys share byte 10; the inventory fills bytes 14, 3, 11 and 6.
    let mut bad = Vec::new();
    for herbs in 7..16u8 {
        let mut bytes = good;
        bytes[10] = (bytes[10] & 0xF0) | herbs;
        bad.push(bytes);
    }
    for keys in 7..16u8 {
        let mut bytes = good;
        bytes[10] = (bytes[10] & 0x0F) | (keys << 4);
        bad.push(bytes);
    }
    for position in [14, 3, 11, 6] {
        let mut low = good;
        low[position] |= 0x0F;
        bad.push(low);
        let mut high = good;
        high[position] |= 0xF0;
        bad.push(high);
    }
    assert_eq!(bad.len(), 26);
    for bytes in bad {
        let password = bytes_to_password(&with_check_byte(bytes));
        assert!(matches!(decode(&password), Err(Dq1PasswordError::InvalidGameState(_))));
        assert_eq!(generate(&password, 3), Ok(vec![]));
    }
    assert!(decode(&bytes_to_password(&with_check_byte(good))).is_ok());
}

fn states_out_of_range() -> Vec<GameState> {
    let mut bad = vec![
        GameState { hero_weapon: 8, ..Default::default() },
        GameState { hero_weapon: 9, ..Default::default() },
        GameState { hero_weapon: 255, ..Default::default() },
        GameState { hero_armor: 8, ..Default::default() },
        GameState { hero_shield: 4, ..Default::default() },
        GameState { herb_count: 7, ..Default::default() },
        GameState { herb_count: 15, ..Default::default() },
        GameState { herb_count: 16, ..Default::default() },
        GameState { key_count: 7, ..Default::default() },
        GameState { key_count: 15, ..Default::default() },
        GameState { salt: 8, ..Default::default() },
        GameState { hero_name: "あいうえお".to_owned(), ..Default::default() },
        GameState { hero_name: "A".to_owned(), ..Default::default() },
        GameState {
            hero_name: "しど-".to_owned(),
            hero_xp: 1234,
            purse: 5678,
            hero_weapon: 5,
            hero_armor: 5,
            hero_shield: 2,
            herb_count: 6,
            key_count: 6,
            inventory: [1, 2, 3, 4, 5, 6, 7, 15],
            flag_equip_dragon_scale: true,
            flag_equip_warrior_ring: true,
            flag_got_death_necklace: true,
            flag_beated_golem: true,
            flag_beated_dragon: true,
            salt: 5,
        },
    ];
    for slot in 0..8 {
        let mut inventory = [0u8; 8];
        inventory[slot] = 15;
        bad.push(GameState { inventory, ..Default::default() });
        inventory[slot] = 31;
        bad.push(GameState { inventory, ..Default::default() });
    }
    bad
}

#[test]
fn a_field_out_of_range_is_an_invalid_game_state() {
    for state in states_out_of_range() {
        assert!(matches!(state.validate(), Err(Dq1PasswordError::InvalidGameState(_))));
    }
}

#[test]
fn a_state_out_of_range_is_not_encoded() {
    for state in states_out_of_range() {
        assert!(matches!(encode(&state), Err(Dq1PasswordError::InvalidGameState(_))));
    }
}

#[test]
fn a_state_is_encoded_if_and_only_if_it_is_valid() {
    let mut all = states();
    all.extend(states_out_of_range());
    for weapon in 0..=16u8 {
        all.push(GameState { hero_weapon: weapon, ..Default::default() });
    }
    for salt in 0..=9u8 {
        all.push(GameState { salt, ..Default::default() });
    }
    for tool in 0..=16u8 {
        all.push(GameState { inventory: [0, 0, 0, tool, 0, 0, 0, 0], ..Default::default() });
    }
    for state in all {
        assert_eq!(encode(&state).is_ok(), state.validate().is_ok());
    }
}

#[test]
fn a_malformed_password_is_an_invalid_password() {
    assert!(matches!(decode(""), Err(Dq1PasswordError::InvalidPassword(_))));
    assert!(matches!(
        decode("つにこへむゆるわげげだどべうきさそさに?"),
        Err(Dq1PasswordError::InvalidPassword(_))
    ));
    assert!(matches!(
        decode("つにこへむゆるわげげだどべうきさそさにはは"),
        Err(Dq1PasswordError::InvalidPassword(_))
    ));
}

#[test]
fn found_passwords_match_decode_and_differ() {
    let pattern = "?????ぢぎきつたうずせれえむる???";
    let passwords = generate(pattern, 40).unwrap();
    assert_eq!(passwords.len(), 40);
    for (a, password) in passwords.iter().enumerate() {
        assert!(decode(password).is_ok());
        for (p, c) in pattern.chars().zip(password.chars()) {
            assert!(p == '?' || p == c);
        }
        for other in &passwords[a + 1..] {
            assert_ne!(password, other);
        }
    }
}
