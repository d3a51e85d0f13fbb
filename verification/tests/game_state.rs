use dq1_password::GameState;

#[test]
fn test_validate() {
    assert!(GameState::default().validate().is_ok());
    assert!(GameState { hero_name: "あああああ".to_owned(), ..Default::default() }
        .validate()
        .is_err());
    assert!(GameState { hero_weapon: 8, ..Default::default() }.validate().is_err());
    assert!(GameState { hero_armor: 8, ..Default::default() }.validate().is_err());
    assert!(GameState { hero_shield: 4, ..Default::default() }.validate().is_err());
    assert!(GameState { herb_count: 7, ..Default::default() }.validate().is_err());
    assert!(GameState { key_count: 7, ..Default::default() }.validate().is_err());
    assert!(GameState { inventory: [0, 0, 0, 0, 0, 0, 0, 15], ..Default::default() }
        .validate()
        .is_err());
    assert!(GameState { salt: 8, ..Default::default() }.validate().is_err());
}

#[test]
fn test_normalize() {
    assert_eq!(
        GameState::default().normalize(),
        Ok(GameState { hero_name: "    ".to_owned(), ..Default::default() })
    );

    assert_eq!(
        GameState { hero_name: "がー　".to_owned(), ..Default::default() }.normalize(),
        Ok(GameState { hero_name: "か゛- ".to_owned(), ..Default::default() })
    );

    assert!(GameState { hero_name: "A".to_owned(), ..Default::default() }.normalize().is_err());
}

#[test]
fn default_state_is_empty() {
    let state = GameState::default();
    assert_eq!(state.hero_name, "");
    assert_eq!(state.hero_xp, 0);
    assert_eq!(state.purse, 0);
    assert_eq!(state.inventory, [0; 8]);
    assert!(!state.flag_beated_dragon);
    assert_eq!(state.salt, 0);
}

#[test]
fn normalize_leaves_numbers_alone() {
    let state = GameState { hero_weapon: 200, salt: 99, ..Default::default() };
    let normal = state.normalize().unwrap();
    assert_eq!(normal.hero_weapon, 200);
    assert_eq!(normal.salt, 99);
    assert_eq!(normal.hero_name, "    ");
}
