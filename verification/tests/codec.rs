use dq1_password::{crc_update, decode, encode, Dq1PasswordError, GameState};

fn sample_state(hero_name: &str) -> GameState {
    GameState {
        hero_name: hero_name.to_owned(),
        hero_xp: 1234,
        purse: 5678,
        hero_weapon: 5,
        hero_armor: 5,
        hero_shield: 2,
        herb_count: 6,
        key_count: 6,
        inventory: [1, 2, 3, 4, 5, 6, 7, 8],
        flag_equip_dragon_scale: true,
        flag_equip_warrior_ring: true,
        flag_got_death_necklace: true,
        flag_beated_golem: true,
        flag_beated_dragon: true,
        salt: 5,
    }
}

#[test]
fn test_crc_update() {
    assert_eq!(crc_update(0, 0, 1), 0);
    assert_eq!(crc_update(0, 0, 8), 0);
    assert_eq!(crc_update(0, 1, 1), 0x1021);
    assert_eq!(crc_update(0, 2, 2), 0x2042);
    assert_eq!(crc_update(0, 3, 2), 0x3063);
    assert_eq!(crc_update(crc_update(0, 1, 1), 1, 1), 0x3063);
    assert_eq!(crc_update(crc_update(0, 0xFF, 8), 0xFF, 8), 0x1D0F);
}

#[test]
fn test_decode() {
    assert_eq!(
        decode("つにこへむゆるわげげだどべうきさそさには"),
        Ok(GameState::default().normalize().unwrap())
    );

    assert_eq!(
        decode("ざぼちずどぢぎきつたうずせれえむるのぢえ"),
        Ok(sample_state("しと゛-")),
    );

    assert!(matches!(
        decode("どくのばうぼぞそこけばがきもびはめつごび"),
        Err(Dq1PasswordError::InvalidGameState(_)),
    ));

    assert!(matches!(
        decode("ざぼちずどぢぎきつたうずせれえむるのぢお"),
        Err(Dq1PasswordError::CrcMismatch { .. })
    ));
}

#[test]
fn test_encode() {
    assert_eq!(
        encode(&GameState::default()),
        Ok("つにこへむゆるわげげだどべうきさそさには".to_owned()),
    );

    assert_eq!(
        encode(&sample_state("しどー")),
        Ok("ざぼちずどぢぎきつたうずせれえむるのぢえ".to_owned())
    );
}
