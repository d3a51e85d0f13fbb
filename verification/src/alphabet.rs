//! The two alphabets: that of passwords and that of hero names.

use vstd::prelude::*;

verus! {

/// The symbol of the password alphabet with the given index: the unvoiced
/// kana from `あ` to `わ`, then the voiced ones from `が` to `ぼ`.
pub open spec fn password_symbol(index: u8) -> char
    recommends
        index < 64,
{
    match index {
        0 => 'あ',
        1 => 'い',
        2 => 'う',
        3 => 'え',
        4 => 'お',
        5 => 'か',
        6 => 'き',
        7 => 'く',
        8 => 'け',
        9 => 'こ',
        10 => 'さ',
        11 => 'し',
        12 => 'す',
        13 => 'せ',
        14 => 'そ',
        15 => 'た',
        16 => 'ち',
        17 => 'つ',
        18 => 'て',
        19 => 'と',
        20 => 'な',
        21 => 'に',
        22 => 'ぬ',
        23 => 'ね',
        24 => 'の',
        25 => 'は',
        26 => 'ひ',
        27 => 'ふ',
        28 => 'へ',
        29 => 'ほ',
        30 => 'ま',
        31 => 'み',
        32 => 'む',
        33 => 'め',
        34 => 'も',
        35 => 'や',
        36 => 'ゆ',
        37 => 'よ',
        38 => 'ら',
        39 => 'り',
        40 => 'る',
        41 => 'れ',
        42 => 'ろ',
        43 => 'わ',
        44 => 'が',
        45 => 'ぎ',
        46 => 'ぐ',
        47 => 'げ',
        48 => 'ご',
        49 => 'ざ',
        50 => 'じ',
        51 => 'ず',
        52 => 'ぜ',
        53 => 'ぞ',
        54 => 'だ',
        55 => 'ぢ',
        56 => 'づ',
        57 => 'で',
        58 => 'ど',
        59 => 'ば',
        60 => 'び',
        61 => 'ぶ',
        62 => 'べ',
        _ => 'ぼ',
    }
}

/// The index of `c` in the password alphabet, if it belongs to it.
pub open spec fn password_index(c: char) -> Option<u8> {
    match c {
        'あ' => Some(0),
        'い' => Some(1),
        'う' => Some(2),
        'え' => Some(3),
        'お' => Some(4),
        'か' => Some(5),
        'き' => Some(6),
        'く' => Some(7),
        'け' => Some(8),
        'こ' => Some(9),
        'さ' => Some(10),
        'し' => Some(11),
        'す' => Some(12),
        'せ' => Some(13),
        'そ' => Some(14),
        'た' => Some(15),
        'ち' => Some(16),
        'つ' => Some(17),
        'て' => Some(18),
        'と' => Some(19),
        'な' => Some(20),
        'に' => Some(21),
        'ぬ' => Some(22),
        'ね' => Some(23),
        'の' => Some(24),
        'は' => Some(25),
        'ひ' => Some(26),
        'ふ' => Some(27),
        'へ' => Some(28),
        'ほ' => Some(29),
        'ま' => Some(30),
        'み' => Some(31),
        'む' => Some(32),
        'め' => Some(33),
        'も' => Some(34),
        'や' => Some(35),
        'ゆ' => Some(36),
        'よ' => Some(37),
        'ら' => Some(38),
        'り' => Some(39),
        'る' => Some(40),
        'れ' => Some(41),
        'ろ' => Some(42),
        'わ' => Some(43),
        'が' => Some(44),
        'ぎ' => Some(45),
        'ぐ' => Some(46),
        'げ' => Some(47),
        'ご' => Some(48),
        'ざ' => Some(49),
        'じ' => Some(50),
        'ず' => Some(51),
        'ぜ' => Some(52),
        'ぞ' => Some(53),
        'だ' => Some(54),
        'ぢ' => Some(55),
        'づ' => Some(56),
        'で' => Some(57),
        'ど' => Some(58),
        'ば' => Some(59),
        'び' => Some(60),
        'ぶ' => Some(61),
        'べ' => Some(62),
        'ぼ' => Some(63),
        _ => None,
    }
}

/// The symbol of the hero-name alphabet with the given index: the digits,
/// the unvoiced kana from `あ` to `ん`, the small kana, the two voicing
/// marks, the hyphen and the space.
pub open spec fn hero_symbol(index: u8) -> char
    recommends
        index < 64,
{
    match index {
        0 => '0',
        1 => '1',
        2 => '2',
        3 => '3',
        4 => '4',
        5 => '5',
        6 => '6',
        7 => '7',
        8 => '8',
        9 => '9',
        10 => 'あ',
        11 => 'い',
        12 => 'う',
        13 => 'え',
        14 => 'お',
        15 => 'か',
        16 => 'き',
        17 => 'く',
        18 => 'け',
        19 => 'こ',
        20 => 'さ',
        21 => 'し',
        22 => 'す',
        23 => 'せ',
        24 => 'そ',
        25 => 'た',
        26 => 'ち',
        27 => 'つ',
        28 => 'て',
        29 => 'と',
        30 => 'な',
        31 => 'に',
        32 => 'ぬ',
        33 => 'ね',
        34 => 'の',
        35 => 'は',
        36 => 'ひ',
        37 => 'ふ',
        38 => 'へ',
        39 => 'ほ',
        40 => 'ま',
        41 => 'み',
        42 => 'む',
        43 => 'め',
        44 => 'も',
        45 => 'や',
        46 => 'ゆ',
        47 => 'よ',
        48 => 'ら',
        49 => 'り',
        50 => 'る',
        51 => 'れ',
        52 => 'ろ',
        53 => 'わ',
        54 => 'を',
        55 => 'ん',
        56 => 'っ',
        57 => 'ゃ',
        58 => 'ゅ',
        59 => 'ょ',
        60 => '\u{309B}',
        61 => '\u{309C}',
        62 => '-',
        _ => ' ',
    }
}

/// The index of `c` in the hero-name alphabet, if it belongs to it.
pub open spec fn hero_index(c: char) -> Option<u8> {
    match c {
        '0' => Some(0),
        '1' => Some(1),
        '2' => Some(2),
        '3' => Some(3),
        '4' => Some(4),
        '5' => Some(5),
        '6' => Some(6),
        '7' => Some(7),
        '8' => Some(8),
        '9' => Some(9),
        'あ' => Some(10),
        'い' => Some(11),
        'う' => Some(12),
        'え' => Some(13),
        'お' => Some(14),
        'か' => Some(15),
        'き' => Some(16),
        'く' => Some(17),
        'け' => Some(18),
        'こ' => Some(19),
        'さ' => Some(20),
        'し' => Some(21),
        'す' => Some(22),
        'せ' => Some(23),
        'そ' => Some(24),
        'た' => Some(25),
        'ち' => Some(26),
        'つ' => Some(27),
        'て' => Some(28),
        'と' => Some(29),
        'な' => Some(30),
        'に' => Some(31),
        'ぬ' => Some(32),
        'ね' => Some(33),
        'の' => Some(34),
        'は' => Some(35),
        'ひ' => Some(36),
        'ふ' => Some(37),
        'へ' => Some(38),
        'ほ' => Some(39),
        'ま' => Some(40),
        'み' => Some(41),
        'む' => Some(42),
        'め' => Some(43),
        'も' => Some(44),
        'や' => Some(45),
        'ゆ' => Some(46),
        'よ' => Some(47),
        'ら' => Some(48),
        'り' => Some(49),
        'る' => Some(50),
        'れ' => Some(51),
        'ろ' => Some(52),
        'わ' => Some(53),
        'を' => Some(54),
        'ん' => Some(55),
        'っ' => Some(56),
        'ゃ' => Some(57),
        'ゅ' => Some(58),
        'ょ' => Some(59),
        '\u{309B}' => Some(60),
        '\u{309C}' => Some(61),
        '-' => Some(62),
        ' ' => Some(63),
        _ => None,
    }
}

/// The password alphabet is a bijection between `0..64` and its symbols.
pub proof fn lemma_password_alphabet()
    ensures
        forall|i: u8| i < 64 ==> password_index(#[trigger] password_symbol(i)) == Some(i),
        forall|c: char|
            (#[trigger] password_index(c)) matches Some(i) ==> i < 64 && password_symbol(i) == c,
{
}

/// The hero-name alphabet is a bijection between `0..64` and its symbols.
pub proof fn lemma_hero_alphabet()
    ensures
        forall|i: u8| i < 64 ==> hero_index(#[trigger] hero_symbol(i)) == Some(i),
        forall|c: char|
            (#[trigger] hero_index(c)) matches Some(i) ==> i < 64 && hero_symbol(i) == c,
{
}

/// Looks `c` up in the password alphabet.
pub fn password_char_to_cum(c: char) -> (cum: Option<u8>)
    ensures
        cum == password_index(c),
        cum matches Some(i) ==> i < 64 && password_symbol(i) == c,
{
    let cum = match c {
        'あ' => Some(0),
        'い' => Some(1),
        'う' => Some(2),
        'え' => Some(3),
        'お' => Some(4),
        'か' => Some(5),
        'き' => Some(6),
        'く' => Some(7),
        'け' => Some(8),
        'こ' => Some(9),
        'さ' => Some(10),
        'し' => Some(11),
        'す' => Some(12),
        'せ' => Some(13),
        'そ' => Some(14),
        'た' => Some(15),
        'ち' => Some(16),
        'つ' => Some(17),
        'て' => Some(18),
        'と' => Some(19),
        'な' => Some(20),
        'に' => Some(21),
        'ぬ' => Some(22),
        'ね' => Some(23),
        'の' => Some(24),
        'は' => Some(25),
        'ひ' => Some(26),
        'ふ' => Some(27),
        'へ' => Some(28),
        'ほ' => Some(29),
        'ま' => Some(30),
        'み' => Some(31),
        'む' => Some(32),
        'め' => Some(33),
        'も' => Some(34),
        'や' => Some(35),
        'ゆ' => Some(36),
        'よ' => Some(37),
        'ら' => Some(38),
        'り' => Some(39),
        'る' => Some(40),
        'れ' => Some(41),
        'ろ' => Some(42),
        'わ' => Some(43),
        'が' => Some(44),
        'ぎ' => Some(45),
        'ぐ' => Some(46),
        'げ' => Some(47),
        'ご' => Some(48),
        'ざ' => Some(49),
        'じ' => Some(50),
        'ず' => Some(51),
        'ぜ' => Some(52),
        'ぞ' => Some(53),
        'だ' => Some(54),
        'ぢ' => Some(55),
        'づ' => Some(56),
        'で' => Some(57),
        'ど' => Some(58),
        'ば' => Some(59),
        'び' => Some(60),
        'ぶ' => Some(61),
        'べ' => Some(62),
        'ぼ' => Some(63),
        _ => None,
    };
    cum
}

/// The symbol of the password alphabet with index `cum`.
pub fn cum_to_password_char(cum: u8) -> (c: char)
    requires
        cum < 64,
    ensures
        c == password_symbol(cum),
{
    match cum {
        0 => 'あ',
        1 => 'い',
        2 => 'う',
        3 => 'え',
        4 => 'お',
        5 => 'か',
        6 => 'き',
        7 => 'く',
        8 => 'け',
        9 => 'こ',
        10 => 'さ',
        11 => 'し',
        12 => 'す',
        13 => 'せ',
        14 => 'そ',
        15 => 'た',
        16 => 'ち',
        17 => 'つ',
        18 => 'て',
        19 => 'と',
        20 => 'な',
        21 => 'に',
        22 => 'ぬ',
        23 => 'ね',
        24 => 'の',
        25 => 'は',
        26 => 'ひ',
        27 => 'ふ',
        28 => 'へ',
        29 => 'ほ',
        30 => 'ま',
        31 => 'み',
        32 => 'む',
        33 => 'め',
        34 => 'も',
        35 => 'や',
        36 => 'ゆ',
        37 => 'よ',
        38 => 'ら',
        39 => 'り',
        40 => 'る',
        41 => 'れ',
        42 => 'ろ',
        43 => 'わ',
        44 => 'が',
        45 => 'ぎ',
        46 => 'ぐ',
        47 => 'げ',
        48 => 'ご',
        49 => 'ざ',
        50 => 'じ',
        51 => 'ず',
        52 => 'ぜ',
        53 => 'ぞ',
        54 => 'だ',
        55 => 'ぢ',
        56 => 'づ',
        57 => 'で',
        58 => 'ど',
        59 => 'ば',
        60 => 'び',
        61 => 'ぶ',
        62 => 'べ',
        _ => 'ぼ',
    }
}

/// Looks `c` up in the hero-name alphabet.
pub fn pack_hero_name_char(c: char) -> (packed: Option<u8>)
    ensures
        packed == hero_index(c),
        packed matches Some(i) ==> i < 64 && hero_symbol(i) == c,
{
    let packed = match c {
        '0' => Some(0),
        '1' => Some(1),
        '2' => Some(2),
        '3' => Some(3),
        '4' => Some(4),
        '5' => Some(5),
        '6' => Some(6),
        '7' => Some(7),
        '8' => Some(8),
        '9' => Some(9),
        'あ' => Some(10),
        'い' => Some(11),
        'う' => Some(12),
        'え' => Some(13),
        'お' => Some(14),
        'か' => Some(15),
        'き' => Some(16),
        'く' => Some(17),
        'け' => Some(18),
        'こ' => Some(19),
        'さ' => Some(20),
        'し' => Some(21),
        'す' => Some(22),
        'せ' => Some(23),
        'そ' => Some(24),
        'た' => Some(25),
        'ち' => Some(26),
        'つ' => Some(27),
        'て' => Some(28),
        'と' => Some(29),
        'な' => Some(30),
        'に' => Some(31),
        'ぬ' => Some(32),
        'ね' => Some(33),
        'の' => Some(34),
        'は' => Some(35),
        'ひ' => Some(36),
        'ふ' => Some(37),
        'へ' => Some(38),
        'ほ' => Some(39),
        'ま' => Some(40),
        'み' => Some(41),
        'む' => Some(42),
        'め' => Some(43),
        'も' => Some(44),
        'や' => Some(45),
        'ゆ' => Some(46),
        'よ' => Some(47),
        'ら' => Some(48),
        'り' => Some(49),
        'る' => Some(50),
        'れ' => Some(51),
        'ろ' => Some(52),
        'わ' => Some(53),
        'を' => Some(54),
        'ん' => Some(55),
        'っ' => Some(56),
        'ゃ' => Some(57),
        'ゅ' => Some(58),
        'ょ' => Some(59),
        '\u{309B}' => Some(60),
        '\u{309C}' => Some(61),
        '-' => Some(62),
        ' ' => Some(63),
        _ => None,
    };
    packed
}

/// The symbol of the hero-name alphabet with index `b`.
pub fn unpack_hero_name_char(b: u8) -> (c: char)
    requires
        b < 64,
    ensures
        c == hero_symbol(b),
{
    match b {
        0 => '0',
        1 => '1',
        2 => '2',
        3 => '3',
        4 => '4',
        5 => '5',
        6 => '6',
        7 => '7',
        8 => '8',
        9 => '9',
        10 => 'あ',
        11 => 'い',
        12 => 'う',
        13 => 'え',
        14 => 'お',
        15 => 'か',
        16 => 'き',
        17 => 'く',
        18 => 'け',
        19 => 'こ',
        20 => 'さ',
        21 => 'し',
        22 => 'す',
        23 => 'せ',
        24 => 'そ',
        25 => 'た',
        26 => 'ち',
        27 => 'つ',
        28 => 'て',
        29 => 'と',
        30 => 'な',
        31 => 'に',
        32 => 'ぬ',
        33 => 'ね',
        34 => 'の',
        35 => 'は',
        36 => 'ひ',
        37 => 'ふ',
        38 => 'へ',
        39 => 'ほ',
        40 => 'ま',
        41 => 'み',
        42 => 'む',
        43 => 'め',
        44 => 'も',
        45 => 'や',
        46 => 'ゆ',
        47 => 'よ',
        48 => 'ら',
        49 => 'り',
        50 => 'る',
        51 => 'れ',
        52 => 'ろ',
        53 => 'わ',
        54 => 'を',
        55 => 'ん',
        56 => 'っ',
        57 => 'ゃ',
        58 => 'ゅ',
        59 => 'ょ',
        60 => '\u{309B}',
        61 => '\u{309C}',
        62 => '-',
        _ => ' ',
    }
}

} // verus!
