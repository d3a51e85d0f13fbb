use dq1_password::alphabet::{
    cum_to_password_char, pack_hero_name_char, password_char_to_cum, unpack_hero_name_char,
};
use dq1_password::crc::{crc_of_payload, high_byte, low_byte};
use dq1_password::decode::{bytes_to_state, check_bytes_crc, password_to_bytes, unpack_hero_name};
use dq1_password::encode::{bytes_to_password, pack_hero_name, state_to_bytes};
use dq1_password::generate::{cum_range, DpTrace};
use dq1_password::normalize::{
    is_whitespace, normalize_hero_name_char, normalize_password_char, normalize_pattern_char,
};
use dq1_password::sixbit::{next_cum, six_between, sixs_to_bytes};
use dq1_password::text::{
    chars_of, crc_message, limit_message, quoted_list, slot_message, string_of,
};
use dq1_password::{crc_update, Dq1PasswordError, GameState};

const PASSWORD_ALPHABET: &str =
    "あいうえおかきくけこさしすせそたちつてとなにぬねのはひふへほまみむめもやゆよらりるれろわがぎぐげござじずぜぞだぢづでどばびぶべぼ";

const HERO_ALPHABET: &str =
    "0123456789あいうえおかきくけこさしすせそたちつてとなにぬねのはひふへほまみむめもやゆよらりるれろわをんっゃゅょ゛゜- ";

fn sample_state() -> GameState {
    GameState {
        hero_name: "しと゛-".to_owned(),
        hero_xp: 1234,
        purse: 5678,
        hero_weapon: 5,
        hero_armor: 5,
        hero_shield: 2,
        herb_count: 6,
        key_count: 6,
        inventory: [1, 2, 3, 4, 5, 6, 7, 8],
        flag_equip_dragon_scale: true,
        flag_equip_warrior_ring: true,
        flag_got_death_necklace: true,
        flag_beated_golem: true,
        flag_beated_dragon: true,
        salt: 5,
    }
}

#[test]
fn crc_of_nothing_is_nothing() {
    for n_bits in 1..=8 {
        assert_eq!(crc_update(0, 0, n_bits), 0);
    }
}

#[test]
fn crc_of_known_bytes() {
    assert_eq!(crc_update(0, 1, 1), 0x1021);
    assert_eq!(crc_update(crc_update(0, 0xFF, 8), 0xFF, 8), 0x1D0F);
    assert_eq!(crc_update(0, 0x80, 8), 0x9188);
    assert_eq!(crc_update(0x8000, 0, 1), 0x1021);
    let mut crc = 0;
    for b in b"123456789" {
        crc = crc_update(crc, *b, 8);
    }
    assert_eq!(crc, 0x31C3);
}

#[test]
fn crc_of_a_payload_leaves_the_check_byte_out() {
    let mut buffer = [0u8; 15];
    buffer[0] = 0xAA;
    for (i, b) in b"123456789".iter().enumerate() {
        buffer[6 + i] = *b;
    }
    assert_eq!(crc_of_payload(&buffer), 0x31C3);
    assert_eq!(low_byte(0x31C3), 0xC3);
    assert_eq!(high_byte(0x31C3), 0x31);
}

#[test]
fn password_alphabet_is_a_bijection() {
    let symbols: Vec<char> = PASSWORD_ALPHABET.chars().collect();
    assert_eq!(symbols.len(), 64);
    for (index, symbol) in symbols.iter().enumerate() {
        assert_eq!(cum_to_password_char(index as u8), *symbol);
        assert_eq!(password_char_to_cum(*symbol), Some(index as u8));
    }
    assert_eq!(password_char_to_cum('?'), None);
    assert_eq!(password_char_to_cum('を'), None);
    assert_eq!(password_char_to_cum('ぱ'), None);
    assert_eq!(password_char_to_cum('0'), None);
}

#[test]
fn hero_alphabet_is_a_bijection() {
    let symbols: Vec<char> = HERO_ALPHABET.chars().collect();
    assert_eq!(symbols.len(), 64);
    for (index, symbol) in symbols.iter().enumerate() {
        assert_eq!(unpack_hero_name_char(index as u8), *symbol);
        assert_eq!(pack_hero_name_char(*symbol), Some(index as u8));
    }
    assert_eq!(pack_hero_name_char('が'), None);
    assert_eq!(pack_hero_name_char('A'), None);
    assert_eq!(pack_hero_name_char('\u{3099}'), None);
}

#[test]
fn hero_names_pack_and_unpack() {
    assert_eq!(pack_hero_name("しと゛-"), [0x15, 0x1D, 0x3C, 0x3E]);
    assert_eq!(pack_hero_name("    "), [0x3F; 4]);
    assert_eq!(unpack_hero_name([0x15, 0x1D, 0x3C, 0x3E]), "しと゛-");
    assert_eq!(unpack_hero_name([0, 9, 10, 63]), "09あ ");
}

#[test]
fn a_state_packs_into_its_layout() {
    let bytes = state_to_bytes(&sample_state());
    assert_eq!(bytes[1], 0xD2);
    assert_eq!(bytes[12], 0x04);
    assert_eq!(bytes[4], 0x2E);
    assert_eq!(bytes[9], 0x16);
    assert_eq!(bytes[2], 0x3C | 0x40);
    assert_eq!(bytes[5], 1 | 2 | (0x15 << 2));
    assert_eq!(bytes[7], 0x3E | 0x40 | 0x80);
    assert_eq!(bytes[13], 1 | (0x1D << 1) | 0x80);
    assert_eq!(bytes[8], 2 | (5 << 2) | (5 << 5));
    assert_eq!(bytes[10], 0x66);
    assert_eq!(bytes[14], 0x21);
    assert_eq!(bytes[3], 0x43);
    assert_eq!(bytes[11], 0x65);
    assert_eq!(bytes[6], 0x87);
    let crc = bytes[1..].iter().fold(0, |crc, &b| crc_update(crc, b, 8));
    assert_eq!(u16::from(bytes[0]), crc & 0xFF);
    assert_eq!(bytes_to_state(&bytes), sample_state());
    assert_eq!(check_bytes_crc(&bytes), Ok(()));
}

#[test]
fn a_buffer_and_its_password() {
    let bytes = state_to_bytes(&sample_state());
    let password = bytes_to_password(&bytes);
    assert_eq!(password, "ざぼちずどぢぎきつたうずせれえむるのぢえ");
    assert_eq!(password_to_bytes(&password), bytes);
    assert_eq!(bytes_to_password(&[0; 15]), "おけすちなのへむゆるがごぜづびあおけすち");
    assert_eq!(password_to_bytes("おけすちなのへむゆるがごぜづびあおけすち"), [0; 15]);
}

#[test]
fn a_wrong_check_byte_is_reported_with_the_crc() {
    let mut bytes = state_to_bytes(&sample_state());
    let crc = bytes[1..].iter().fold(0, |crc, &b| crc_update(crc, b, 8));
    bytes[0] ^= 1;
    assert_eq!(
        check_bytes_crc(&bytes),
        Err(Dq1PasswordError::CrcMismatch { expect: bytes[0], actual: crc })
    );
}

#[test]
fn units_and_bytes() {
    let mut sixs = [0u8; 20];
    sixs[0] = 0x05;
    sixs[1] = 0x1D;
    sixs[2] = 0x16;
    sixs[3] = 0x22;
    assert_eq!(&sixs_to_bytes(&sixs)[..3], &[0b01000101, 0b01100111, 0b10001001]);
    assert_eq!(sixs_to_bytes(&[0x3F; 20]), [0xFF; 15]);
    let mut last = [0u8; 20];
    last[19] = 1;
    assert_eq!(sixs_to_bytes(&last)[14], 4);
}

#[test]
fn running_sums_and_differences() {
    assert_eq!(next_cum(0, 0), 4);
    assert_eq!(next_cum(60, 0), 0);
    assert_eq!(next_cum(63, 63), 2);
    assert_eq!(six_between(0, 4), 0);
    assert_eq!(six_between(0, 0), 60);
    assert_eq!(six_between(63, 2), 63);
    for pre in 0..64 {
        for six in 0..64 {
            assert_eq!(six_between(pre, next_cum(pre, six)), six);
        }
    }
}

#[test]
fn steps_back_hold_their_cells() {
    let trace = DpTrace::new(5, 0xAB, 1);
    assert_eq!(trace, DpTrace(0x45AB));
    assert_eq!((trace.j(), trace.k(), trace.l()), (5, 0xAB, 1));
    let trace = DpTrace::new(63, 255, 0);
    assert_eq!(trace, DpTrace(0x3FFF));
    assert_eq!((trace.j(), trace.k(), trace.l()), (63, 255, 0));
}

#[test]
fn ranges_of_running_sums() {
    assert_eq!(cum_range(None), (0, 63));
    assert_eq!(cum_range(Some(0)), (0, 0));
    assert_eq!(cum_range(Some(17)), (17, 17));
}

#[test]
fn characters_stand_for_symbols() {
    assert_eq!(normalize_hero_name_char('が'), ('か', Some('゛')));
    assert_eq!(normalize_hero_name_char('ぽ'), ('ほ', Some('゜')));
    assert_eq!(normalize_hero_name_char('\u{3094}'), ('う', Some('゛')));
    assert_eq!(normalize_hero_name_char('７'), ('7', None));
    assert_eq!(normalize_hero_name_char('ー'), ('-', None));
    assert_eq!(normalize_hero_name_char('　'), (' ', None));
    assert_eq!(normalize_hero_name_char('A'), ('A', None));
    assert_eq!(normalize_password_char('あ'), Some('あ'));
    assert_eq!(normalize_password_char('　'), None);
    assert_eq!(normalize_password_char('？'), Some('？'));
    assert_eq!(normalize_pattern_char('？'), Some('?'));
    assert_eq!(normalize_pattern_char('?'), Some('?'));
    assert_eq!(normalize_pattern_char('\n'), None);
    assert_eq!(normalize_pattern_char('あ'), Some('あ'));
}

#[test]
fn white_space_is_what_unicode_says() {
    for code in 0..=0x10FFFFu32 {
        if let Some(c) = char::from_u32(code) {
            assert_eq!(is_whitespace(c), c.is_whitespace(), "U+{:04X}", code);
        }
    }
}

#[test]
fn strings_and_their_characters() {
    assert_eq!(chars_of("あ-0"), vec!['あ', '-', '0']);
    assert_eq!(chars_of(""), Vec::<char>::new());
    assert_eq!(string_of(&['か', '゛', ' ']), "か゛ ");
    assert_eq!(string_of(&[]), "");
}

#[test]
fn diagnostics_are_written_out() {
    assert_eq!(limit_message("道具ID", 14, 15), "道具IDは 14 以下でなければならない: 15");
    assert_eq!(limit_message("x", 7, 255), "xは 7 以下でなければならない: 255");
    assert_eq!(limit_message("x", 100, 9), "xは 100 以下でなければならない: 9");
    assert_eq!(slot_message(7, "y"), "インベントリ[7]: y");
    assert_eq!(
        crc_message(0x0F, 0x1D0F),
        format!(
            "CRC 下位バイトが一致しない: expect=0x??{:02X}, actual={:#04X}",
            0x0Fu8, 0x1D0Fu16
        )
    );
    assert_eq!(crc_message(0xAB, 0x0A), "CRC 下位バイトが一致しない: expect=0x??AB, actual=0x0A");
    assert_eq!(
        crc_message(0, 0x123),
        format!("CRC 下位バイトが一致しない: expect=0x??{:02X}, actual={:#04X}", 0u8, 0x123u16)
    );
    assert_eq!(quoted_list(&vec!['A']), "'A'");
    assert_eq!(quoted_list(&vec!['A', '漢', ' ']), "'A', '漢', ' '");
    let error = Dq1PasswordError::CrcMismatch { expect: 0xC3, actual: 0x31C4 };
    assert_eq!(error.message(), "CRC 下位バイトが一致しない: expect=0x??C3, actual=0x31C4");
    assert_eq!(
        Dq1PasswordError::InvalidPassword("x".to_owned()).message(),
        "復活の呪文の形式が無効: x"
    );
    assert_eq!(Dq1PasswordError::InvalidPattern("x".to_owned()).message(), "パターンが無効: x");
}
