use dq1_password::{
    validate_herb_count, validate_hero_armor, validate_hero_name, validate_hero_shield,
    validate_hero_weapon, validate_inventory, validate_key_count, validate_password,
    validate_pattern, validate_salt, validate_tool, Dq1PasswordError,
};

#[test]
fn test_validate_hero_name() {
    assert!(validate_hero_name("").is_ok());
    assert!(validate_hero_name("0123").is_ok());
    assert!(validate_hero_name("ああああ").is_ok());
    assert!(validate_hero_name("がぱ").is_ok());
    assert!(validate_hero_name("　あーす").is_ok());

    assert!(validate_hero_name("     ").is_err());
    assert!(validate_hero_name("あああが").is_err());
    assert!(validate_hero_name("A").is_err());
    assert!(validate_hero_name("漢字").is_err());
}

#[test]
fn test_validate_hero_weapon() {
    assert!(validate_hero_weapon(0).is_ok());
    assert!(validate_hero_weapon(7).is_ok());

    assert!(validate_hero_weapon(8).is_err());
}

#[test]
fn test_validate_hero_armor() {
    assert!(validate_hero_armor(0).is_ok());
    assert!(validate_hero_armor(7).is_ok());

    assert!(validate_hero_armor(8).is_err());
}

#[test]
fn test_validate_hero_shield() {
    assert!(validate_hero_shield(0).is_ok());
    assert!(validate_hero_shield(3).is_ok());

    assert!(validate_hero_shield(4).is_err());
}

#[test]
fn test_validate_herb_count() {
    assert!(validate_herb_count(0).is_ok());
    assert!(validate_herb_count(6).is_ok());

    assert!(validate_herb_count(7).is_err());
}

#[test]
fn test_validate_key_count() {
    assert!(validate_key_count(0).is_ok());
    assert!(validate_key_count(6).is_ok());

    assert!(validate_key_count(7).is_err());
}

#[test]
fn test_validate_inventory() {
    assert!(validate_inventory(&[0; 8]).is_ok());
    assert!(validate_inventory(&[14; 8]).is_ok());

    assert!(validate_inventory(&[0, 0, 0, 0, 0, 0, 0, 15]).is_err());
}

#[test]
fn test_validate_tool() {
    assert!(validate_tool(0).is_ok());
    assert!(validate_tool(14).is_ok());

    assert!(validate_tool(15).is_err());
}

#[test]
fn test_validate_salt() {
    assert!(validate_salt(0).is_ok());
    assert!(validate_salt(7).is_ok());

    assert!(validate_salt(8).is_err());
}

#[test]
fn test_validate_password() {
    assert!(validate_password("ああああああああああああああああああああ").is_ok());
    assert!(validate_password("あああああ あああああああ　あああああ あああ").is_ok());

    assert!(validate_password("あああああああああああああああああああ").is_err());
    assert!(validate_password("あああああああああああああああああああああ").is_err());
    assert!(validate_password("ああああああああああああああああああ漢字").is_err());
}

#[test]
fn test_validate_pattern() {
    assert!(validate_pattern("あああああああ?あ?ああああああああああ").is_ok());
    assert!(validate_pattern("あああああ ああ?あ？ああ　あああああ あああ").is_ok());

    assert!(validate_password("ああああああああああああああああああああ?").is_err());
    assert!(validate_password("ああああああああああああああああああ?").is_err());
    assert!(validate_password("あああああああああああああああああ漢字?").is_err());
}

#[test]
fn limits_are_invalid_game_states() {
    assert!(matches!(validate_hero_weapon(8), Err(Dq1PasswordError::InvalidGameState(_))));
    assert!(matches!(validate_hero_armor(255), Err(Dq1PasswordError::InvalidGameState(_))));
    assert!(matches!(validate_hero_shield(4), Err(Dq1PasswordError::InvalidGameState(_))));
    assert!(matches!(validate_herb_count(7), Err(Dq1PasswordError::InvalidGameState(_))));
    assert!(matches!(validate_key_count(7), Err(Dq1PasswordError::InvalidGameState(_))));
    assert!(matches!(validate_tool(15), Err(Dq1PasswordError::InvalidGameState(_))));
    assert!(matches!(validate_salt(8), Err(Dq1PasswordError::InvalidGameState(_))));
    assert!(matches!(validate_hero_name("A"), Err(Dq1PasswordError::InvalidGameState(_))));
}

#[test]
fn every_inventory_slot_is_checked() {
    for slot in 0..8 {
        let mut inventory = [14u8; 8];
        inventory[slot] = 15;
        assert!(matches!(
            validate_inventory(&inventory),
            Err(Dq1PasswordError::InvalidGameState(_))
        ));
    }
}

#[test]
fn diagnostics_name_the_limit_and_the_value() {
    let err = validate_tool(15).unwrap_err();
    assert_eq!(
        err,
        Dq1PasswordError::InvalidGameState("道具IDは 14 以下でなければならない: 15".to_owned())
    );
    assert_eq!(err.message(), "ゲーム状態が無効: 道具IDは 14 以下でなければならない: 15");

    let err = validate_inventory(&[0, 0, 15, 0, 0, 0, 0, 0]).unwrap_err();
    assert_eq!(
        err.message(),
        "ゲーム状態が無効: インベントリ[2]: ゲーム状態が無効: 道具IDは 14 以下でなければならない: 15"
    );

    let err = validate_salt(9).unwrap_err();
    assert_eq!(err.message(), "ゲーム状態が無効: salt は 7 以下でなければならない: 9");
}

#[test]
fn pattern_and_password_errors_have_their_own_kind() {
    assert!(matches!(validate_password("あ"), Err(Dq1PasswordError::InvalidPassword(_))));
    assert!(matches!(
        validate_password("ああああああああああああああああああ漢字"),
        Err(Dq1PasswordError::InvalidPassword(_))
    ));
    assert!(matches!(validate_pattern("あ"), Err(Dq1PasswordError::InvalidPattern(_))));
    assert!(matches!(
        validate_pattern("あああああああああああああああああ漢字?"),
        Err(Dq1PasswordError::InvalidPattern(_))
    ));
}
