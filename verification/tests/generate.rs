use dq1_password::tables::{crc16_table_tail, crc8_table_head, crc8_table_tail};
use dq1_password::{crc_update, decode, encode, generate, Dq1PasswordError, GameState};

const DEFAULT_PASSWORD: &str = "つにこへむゆるわげげだどべうきさそさには";

const ALPHABET: &str =
    "あいうえおかきくけこさしすせそたちつてとなにぬねのはひふへほまみむめもやゆよらりるれろわがぎぐげござじずぜぞだぢづでどばびぶべぼ";

fn matches(pattern: &str, password: &str) -> bool {
    pattern.chars().count() == password.chars().count()
        && pattern.chars().zip(password.chars()).all(|(p, c)| p == '?' || p == c)
}

fn assert_distinct(passwords: &[String]) {
    for a in 0..passwords.len() {
        for b in a + 1..passwords.len() {
            assert_ne!(passwords[a], passwords[b]);
        }
    }
}

#[test]
fn test_crc16_table_tail() {
    let table = crc16_table_tail();
    const BYTES: [u8; 3] = [0b01000101, 0b01100111, 0b10001001];

    let sixs = [
        BYTES[0] & 0x3F,
        (BYTES[0] >> 6) | ((BYTES[1] & 0xF) << 2),
        (BYTES[1] >> 4) | ((BYTES[2] & 0x3) << 4),
        BYTES[2] >> 2,
    ];

    let crc_actual = sixs
        .iter()
        .enumerate()
        .fold(0, |crc, (i, &s)| crc ^ table[14 + i][usize::from(s)]);
    let crc_expect = BYTES.iter().fold(0, |crc, &b| crc_update(crc, b, 8));

    assert_eq!(crc_actual, crc_expect);
}

#[test]
fn tables_add_up_to_the_crc_of_a_payload() {
    let tail = crc8_table_tail();
    let head = crc8_table_head();
    let mut bytes = [0u8; 15];
    for (i, b) in bytes.iter_mut().enumerate() {
        *b = (i as u8).wrapping_mul(37).wrapping_add(11);
    }
    let mut sixs = [0u8; 20];
    for g in 0..5 {
        let (b0, b1, b2) = (bytes[3 * g], bytes[3 * g + 1], bytes[3 * g + 2]);
        sixs[4 * g] = b0 & 0x3F;
        sixs[4 * g + 1] = (b0 >> 6) | ((b1 & 0xF) << 2);
        sixs[4 * g + 2] = (b1 >> 4) | ((b2 & 0x3) << 4);
        sixs[4 * g + 3] = b2 >> 2;
    }
    let mut sum = head[usize::from(sixs[1] >> 2)];
    for i in 0..18 {
        sum ^= tail[i][usize::from(sixs[i + 2])];
    }
    let crc = bytes[1..].iter().fold(0, |crc, &b| crc_update(crc, b, 8));
    assert_eq!(u16::from(sum), crc & 0xFF);
}

#[test]
fn tables_have_known_entries() {
    let wide = crc16_table_tail();
    let tail = crc8_table_tail();
    let head = crc8_table_head();
    assert_eq!(wide[17][0], 0);
    assert_eq!(wide[17][1], crc_update(0, 4, 8));
    assert_eq!(wide[17][1], 0x4084);
    assert_eq!(tail[17][1], 0x84);
    assert_eq!(wide[14][1], crc_update(crc_update(crc_update(0, 1, 8), 0, 8), 0, 8));
    assert_eq!(head[0], 0);
    for i in 0..18 {
        assert_eq!(tail[i][0], 0);
        for j in 0..64 {
            assert_eq!(u16::from(tail[i][j]), wide[i][j] & 0xFF);
        }
    }
}

#[test]
fn wildcards_alone_give_as_many_as_asked() {
    let passwords = generate("????????????????????", 10).unwrap();
    assert_eq!(passwords.len(), 10);
    assert_distinct(&passwords);
    for password in &passwords {
        assert_eq!(password.chars().count(), 20);
        assert!(decode(password).is_ok());
    }
}

#[test]
fn a_password_is_its_own_only_match() {
    assert_eq!(generate(DEFAULT_PASSWORD, 5), Ok(vec![DEFAULT_PASSWORD.to_owned()]));
}

#[test]
fn a_password_that_does_not_decode_matches_nothing() {
    assert_eq!(generate("ざぼちずどぢぎきつたうずせれえむるのぢお", 5), Ok(vec![]));
    assert_eq!(generate("どくのばうぼぞそこけばがきもびはめつごび", 5), Ok(vec![]));
}

#[test]
fn nothing_is_returned_when_nothing_is_asked() {
    assert_eq!(generate("????????????????????", 0), Ok(vec![]));
    assert_eq!(generate(DEFAULT_PASSWORD, 0), Ok(vec![]));
}

#[test]
fn an_invalid_pattern_is_refused() {
    assert!(matches!(generate("?", 3), Err(Dq1PasswordError::InvalidPattern(_))));
    assert!(matches!(
        generate("あああああああああああああああああ漢字?", 3),
        Err(Dq1PasswordError::InvalidPattern(_))
    ));
    assert!(matches!(
        generate("ああああああああああああああああああああ?", 3),
        Err(Dq1PasswordError::InvalidPattern(_))
    ));
}

#[test]
fn full_width_wildcards_and_white_space_are_read() {
    let pattern = "つにこへむ ゆるわげげ　だどべうき さそさ？？";
    let passwords = generate(pattern, 100).unwrap();
    assert_eq!(passwords, generate("つにこへむゆるわげげだどべうきさそさ??", 100).unwrap());
    assert!(passwords.contains(&DEFAULT_PASSWORD.to_owned()));
}

#[test]
fn the_search_finds_exactly_what_decodes() {
    let pattern = "つにこへむゆるわげげだどべうきさそ???";
    let found = generate(pattern, 1_000_000).unwrap();
    assert_distinct(&found);
    let symbols: Vec<char> = ALPHABET.chars().collect();
    let mut expected = Vec::new();
    for a in &symbols {
        for b in &symbols {
            for c in &symbols {
                let mut candidate: String = pattern.chars().take(17).collect();
                candidate.push(*a);
                candidate.push(*b);
                candidate.push(*c);
                if decode(&candidate).is_ok() {
                    expected.push(candidate);
                }
            }
        }
    }
    assert!(!expected.is_empty());
    let mut sorted = found.clone();
    sorted.sort();
    expected.sort();
    assert_eq!(sorted, expected);
    for password in &found {
        assert!(matches(pattern, password));
    }
}

#[test]
fn the_search_stops_at_the_cap() {
    let pattern = "つにこへむゆるわげげだどべうきさそ???";
    let all = generate(pattern, 1_000_000).unwrap();
    assert!(all.len() >= 3);
    let some = generate(pattern, all.len() - 1).unwrap();
    assert_eq!(some.len(), all.len() - 1);
    assert_distinct(&some);
    for password in &some {
        assert!(all.contains(password));
    }
    let exactly = generate(pattern, all.len()).unwrap();
    assert_eq!(exactly.len(), all.len());
}

#[test]
fn wildcards_in_the_middle_respect_the_counts() {
    let pattern = "ざぼちずどぢぎきつたうずせれ??るのぢ?";
    let found = generate(pattern, 1_000_000).unwrap();
    assert_distinct(&found);
    assert!(found.contains(&"ざぼちずどぢぎきつたうずせれえむるのぢえ".to_owned()));
    let symbols: Vec<char> = ALPHABET.chars().collect();
    let mut count = 0;
    for a in &symbols {
        for b in &symbols {
            for c in &symbols {
                let mut candidate: String = pattern.chars().take(14).collect();
                candidate.push(*a);
                candidate.push(*b);
                candidate.push_str("るのぢ");
                candidate.push(*c);
                if decode(&candidate).is_ok() {
                    count += 1;
                    assert!(found.contains(&candidate));
                }
            }
        }
    }
    assert_eq!(found.len(), count);
}

#[test]
fn found_passwords_encode_back() {
    let passwords = generate("ざぼちず????????????????", 20).unwrap();
    assert_eq!(passwords.len(), 20);
    for password in &passwords {
        assert!(matches("ざぼちず????????????????", password));
        let state: GameState = decode(password).unwrap();
        assert!(state.validate().is_ok());
        assert_eq!(encode(&state), Ok(password.clone()));
    }
}
