use dq1_password::{normalize_hero_name, normalize_password, normalize_pattern, Dq1PasswordError};

#[test]
fn test_normalize_hero_name() {
    assert_eq!(normalize_hero_name(""), Ok("    ".to_owned()));
    assert_eq!(normalize_hero_name("0123"), Ok("0123".to_owned()));
    assert_eq!(normalize_hero_name("ああああ"), Ok("ああああ".to_owned()));
    assert_eq!(normalize_hero_name("がぱ"), Ok("か゛は゜".to_owned()));
    assert_eq!(normalize_hero_name("　あーす"), Ok(" あ-す".to_owned()));

    assert!(normalize_hero_name("     ").is_err());
    assert!(normalize_hero_name("あああが").is_err());
    assert!(normalize_hero_name("A").is_err());
    assert!(normalize_hero_name("漢字").is_err());
}

#[test]
fn test_normalize_password() {
    assert_eq!(
        normalize_password("ああああああああああああああああああああ"),
        Ok("ああああああああああああああああああああ".to_owned())
    );
    assert_eq!(
        normalize_password("あああああ あああああああ　あああああ あああ"),
        Ok("ああああああああああああああああああああ".to_owned())
    );

    assert!(normalize_password("あああああああああああああああああああ").is_err());
    assert!(normalize_password("あああああああああああああああああああああ").is_err());
    assert!(normalize_password("ああああああああああああああああああ漢字").is_err());
}

#[test]
fn test_normalize_pattern() {
    assert_eq!(
        normalize_pattern("あああああああ?あ?ああああああああああ"),
        Ok("あああああああ?あ?ああああああああああ".to_owned())
    );
    assert_eq!(
        normalize_pattern("あああああ ああ?あ？ああ　あああああ あああ"),
        Ok("あああああああ?あ?ああああああああああ".to_owned())
    );

    assert!(normalize_password("ああああああああああああああああああああ?").is_err());
    assert!(normalize_password("ああああああああああああああああああ?").is_err());
    assert!(normalize_password("あああああああああああああああああ漢字?").is_err());
}

#[test]
fn hero_name_map_covers_digits_marks_and_dashes() {
    assert_eq!(normalize_hero_name("０９"), Ok("09  ".to_owned()));
    assert_eq!(normalize_hero_name("\u{3094}"), Ok("う゛  ".to_owned()));
    assert_eq!(normalize_hero_name("か\u{3099}"), Ok("か゛  ".to_owned()));
    assert_eq!(normalize_hero_name("は\u{309A}"), Ok("は゜  ".to_owned()));
    for dash in ['\u{2010}', '\u{2011}', '\u{2012}', '\u{2013}', '\u{2014}', '\u{2015}',
        '\u{2212}', '\u{30FC}', '\u{FF70}']
    {
        assert_eq!(normalize_hero_name(&dash.to_string()), Ok("-   ".to_owned()));
    }
    assert_eq!(normalize_hero_name("っゃゅょ"), Ok("っゃゅょ".to_owned()));
}

#[test]
fn hero_name_counts_voicing_marks() {
    assert_eq!(normalize_hero_name("がが"), Ok("か゛か゛".to_owned()));
    assert!(matches!(normalize_hero_name("ががが"), Err(Dq1PasswordError::InvalidGameState(_))));
    assert!(matches!(normalize_hero_name("あいうえお"), Err(Dq1PasswordError::InvalidGameState(_))));
}

#[test]
fn every_unicode_white_space_is_dropped_from_a_password() {
    let spaces = [
        '\u{9}', '\u{A}', '\u{B}', '\u{C}', '\u{D}', ' ', '\u{85}', '\u{A0}', '\u{1680}',
        '\u{2000}', '\u{2001}', '\u{2002}', '\u{2003}', '\u{2004}', '\u{2005}', '\u{2006}',
        '\u{2007}', '\u{2008}', '\u{2009}', '\u{200A}', '\u{2028}', '\u{2029}', '\u{202F}',
        '\u{205F}', '\u{3000}',
    ];
    for space in spaces {
        assert!(space.is_whitespace());
        let mut text = String::from("ああああああああああ");
        text.push(space);
        text.push_str("ああああああああああ");
        assert_eq!(
            normalize_password(&text),
            Ok("ああああああああああああああああああああ".to_owned())
        );
    }
}

#[test]
fn no_other_character_is_dropped_from_a_password() {
    for c in ['\u{200B}', '\u{180E}', '\u{FEFF}', '\u{1F}', '\u{2060}', '\u{8}', '\u{E}'] {
        assert!(!c.is_whitespace());
        let mut text = String::from("ああああああああああああああああああああ");
        text.push(c);
        assert!(matches!(normalize_password(&text), Err(Dq1PasswordError::InvalidPassword(_))));
    }
}

#[test]
fn pattern_errors_are_invalid_patterns() {
    assert!(matches!(
        normalize_pattern("ああああああああああああああああああああ?"),
        Err(Dq1PasswordError::InvalidPattern(_))
    ));
    assert!(matches!(
        normalize_pattern("あああああああああああああああああ漢字?"),
        Err(Dq1PasswordError::InvalidPattern(_))
    ));
    assert!(matches!(
        normalize_password("あああああああああああああああああああ?"),
        Err(Dq1PasswordError::InvalidPassword(_))
    ));
}

#[test]
fn diagnostics_list_the_strangers() {
    assert_eq!(
        normalize_hero_name("AあB"),
        Err(Dq1PasswordError::InvalidGameState(
            "主人公の名前に無効な文字が含まれている: 'A', 'B'".to_owned()
        ))
    );
    assert_eq!(
        normalize_pattern("あああああああああああああああああ漢字?"),
        Err(Dq1PasswordError::InvalidPattern(
            "パターンに無効な文字が含まれている: '漢', '字'".to_owned()
        ))
    );
}
