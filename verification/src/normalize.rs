//! The canonical forms of hero names, passwords and patterns.

use vstd::prelude::*;
use vstd::string::StringExecFns;
use crate::alphabet::{
    hero_index, hero_symbol, pack_hero_name_char, password_char_to_cum, password_index,
};
use crate::error::{outcome, Dq1PasswordError, Dq1PasswordResult, ErrorKind};
use crate::text::{chars_of, quoted_list, string_of};

verus! {

/// The three kinds of text that are brought into canonical form.
pub enum TextForm {
    HeroName,
    Password,
    Pattern,
}

/// Whether `c` has the Unicode property White_Space.
pub open spec fn is_white_space(c: char) -> bool {
    let u = c as u32;
    ||| 0x09 <= u <= 0x0D
    ||| u == 0x20
    ||| u == 0x85
    ||| u == 0xA0
    ||| u == 0x1680
    ||| 0x2000 <= u <= 0x200A
    ||| u == 0x2028
    ||| u == 0x2029
    ||| u == 0x202F
    ||| u == 0x205F
    ||| u == 0x3000
}

/// What one character of a hero's name stands for: a full-width digit for
/// its digit, a voiced or half-voiced kana for its base kana followed by
/// the voicing mark, a dash for the hyphen, the full-width space for the
/// space, and any other character for itself.
pub open spec fn hero_char_expansion(c: char) -> Seq<char> {
    match c {
        '０' => seq!['0'],
        '１' => seq!['1'],
        '２' => seq!['2'],
        '３' => seq!['3'],
        '４' => seq!['4'],
        '５' => seq!['5'],
        '６' => seq!['6'],
        '７' => seq!['7'],
        '８' => seq!['8'],
        '９' => seq!['9'],
        'が' => seq!['か', '\u{309B}'],
        'ぎ' => seq!['き', '\u{309B}'],
        'ぐ' => seq!['く', '\u{309B}'],
        'げ' => seq!['け', '\u{309B}'],
        'ご' => seq!['こ', '\u{309B}'],
        'ざ' => seq!['さ', '\u{309B}'],
        'じ' => seq!['し', '\u{309B}'],
        'ず' => seq!['す', '\u{309B}'],
        'ぜ' => seq!['せ', '\u{309B}'],
        'ぞ' => seq!['そ', '\u{309B}'],
        'だ' => seq!['た', '\u{309B}'],
        'ぢ' => seq!['ち', '\u{309B}'],
        'づ' => seq!['つ', '\u{309B}'],
        'で' => seq!['て', '\u{309B}'],
        'ど' => seq!['と', '\u{309B}'],
        'ば' => seq!['は', '\u{309B}'],
        'び' => seq!['ひ', '\u{309B}'],
        'ぶ' => seq!['ふ', '\u{309B}'],
        'べ' => seq!['へ', '\u{309B}'],
        'ぼ' => seq!['ほ', '\u{309B}'],
        'ぱ' => seq!['は', '\u{309C}'],
        'ぴ' => seq!['ひ', '\u{309C}'],
        'ぷ' => seq!['ふ', '\u{309C}'],
        'ぺ' => seq!['へ', '\u{309C}'],
        'ぽ' => seq!['ほ', '\u{309C}'],
        '\u{3094}' => seq!['う', '\u{309B}'],
        '\u{3099}' => seq!['\u{309B}'],
        '\u{309A}' => seq!['\u{309C}'],
        '\u{2010}' => seq!['-'],
        '\u{2011}' => seq!['-'],
        '\u{2012}' => seq!['-'],
        '\u{2013}' => seq!['-'],
        '\u{2014}' => seq!['-'],
        '\u{2015}' => seq!['-'],
        '\u{2212}' => seq!['-'],
        '\u{30FC}' => seq!['-'],
        '\u{FF70}' => seq!['-'],
        '\u{3000}' => seq![' '],
        _ => seq![c],
    }
}

/// What one character of the given kind of text stands for. In a password
/// white space is dropped; in a pattern so is white space, and the
/// full-width question mark stands for the wildcard `?`.
pub open spec fn char_expansion(form: TextForm, c: char) -> Seq<char> {
    match form {
        TextForm::HeroName => hero_char_expansion(c),
        TextForm::Password => if is_white_space(c) {
            Seq::empty()
        } else {
            seq![c]
        },
        TextForm::Pattern => if c == '\u{FF1F}' {
            seq!['?']
        } else if is_white_space(c) {
            Seq::empty()
        } else {
            seq![c]
        },
    }
}

/// The text `s` with each character replaced by what it stands for.
pub open spec fn expansion(form: TextForm, s: Seq<char>) -> Seq<char>
    decreases s.len(),
{
    if s.len() == 0 {
        Seq::empty()
    } else {
        expansion(form, s.drop_last()) + char_expansion(form, s.last())
    }
}

/// Whether `c` may stand in the canonical form of the given kind of text:
/// a symbol of the hero-name alphabet in a name, one of the password
/// alphabet in a password, and one of the password alphabet or the wildcard
/// `?` in a pattern.
pub open spec fn is_symbol(form: TextForm, c: char) -> bool {
    match form {
        TextForm::HeroName => hero_index(c) is Some,
        TextForm::Password => password_index(c) is Some,
        TextForm::Pattern => password_index(c) is Some || c == '?',
    }
}

/// Every character of `s` may stand in the canonical form of the given
/// kind of text.
pub open spec fn all_symbols(form: TextForm, s: Seq<char>) -> bool {
    forall|i: int| 0 <= i < s.len() ==> is_symbol(form, #[trigger] s[i])
}

/// `s` is a hero's name in canonical form: four symbols of the hero-name
/// alphabet.
pub open spec fn is_hero_name(s: Seq<char>) -> bool {
    s.len() == 4 && all_symbols(TextForm::HeroName, s)
}

/// `s` is a password in canonical form: twenty symbols of the password
/// alphabet.
pub open spec fn is_password(s: Seq<char>) -> bool {
    s.len() == 20 && all_symbols(TextForm::Password, s)
}

/// `s` is a pattern in canonical form: twenty characters, each a symbol of
/// the password alphabet or the wildcard `?`.
pub open spec fn is_pattern(s: Seq<char>) -> bool {
    s.len() == 20 && all_symbols(TextForm::Pattern, s)
}

/// `s` followed by as many spaces as it lacks to four characters.
pub open spec fn padded_hero_name(s: Seq<char>) -> Seq<char> {
    s + Seq::new((4 - s.len()) as nat, |i: int| ' ')
}

/// The canonical form of a hero's name, or the reason why it has none.
pub open spec fn spec_normalize_hero_name(name: Seq<char>) -> Result<Seq<char>, ErrorKind> {
    let symbols = expansion(TextForm::HeroName, name);
    if symbols.len() <= 4 && all_symbols(TextForm::HeroName, symbols) {
        Ok(padded_hero_name(symbols))
    } else {
        Err(ErrorKind::InvalidGameState)
    }
}

/// The canonical form of a password, or the reason why it has none.
pub open spec fn spec_normalize_password(password: Seq<char>) -> Result<Seq<char>, ErrorKind> {
    let symbols = expansion(TextForm::Password, password);
    if is_password(symbols) {
        Ok(symbols)
    } else {
        Err(ErrorKind::InvalidPassword)
    }
}

/// The canonical form of a pattern, or the reason why it has none.
pub open spec fn spec_normalize_pattern(pattern: Seq<char>) -> Result<Seq<char>, ErrorKind> {
    let symbols = expansion(TextForm::Pattern, pattern);
    if is_pattern(symbols) {
        Ok(symbols)
    } else {
        Err(ErrorKind::InvalidPattern)
    }
}

/// Expanding one more character appends what it stands for.
pub proof fn lemma_expansion_step(form: TextForm, s: Seq<char>, i: int)
    requires
        0 <= i < s.len(),
    ensures
        expansion(form, s.take(i + 1)) == expansion(form, s.take(i)) + char_expansion(form, s[i]),
{
    assert(s.take(i + 1).drop_last() == s.take(i));
}

/// The expansion of a prefix is no longer than that of the whole text.
pub proof fn lemma_expansion_prefix(form: TextForm, s: Seq<char>, i: int)
    requires
        0 <= i <= s.len(),
    ensures
        expansion(form, s.take(i)).len() <= expansion(form, s).len(),
    decreases s.len() - i,
{
    if i < s.len() {
        lemma_expansion_step(form, s, i);
        lemma_expansion_prefix(form, s, i + 1);
    } else {
        assert(s.take(i) == s);
    }
}

/// A text whose characters all stand for themselves is its own expansion.
pub proof fn lemma_expansion_fixed(form: TextForm, s: Seq<char>)
    requires
        forall|i: int| 0 <= i < s.len() ==> char_expansion(form, #[trigger] s[i]) == seq![s[i]],
    ensures
        expansion(form, s) == s,
    decreases s.len(),
{
    if s.len() > 0 {
        lemma_expansion_fixed(form, s.drop_last());
        assert(s.drop_last() + seq![s.last()] == s);
    }
}

/// The canonical form of a hero's name is four symbols of the hero-name
/// alphabet.
pub proof fn lemma_normal_hero_name(name: Seq<char>)
    ensures
        spec_normalize_hero_name(name) matches Ok(normal) ==> is_hero_name(normal),
{
    if let Ok(normal) = spec_normalize_hero_name(name) {
        let symbols = expansion(TextForm::HeroName, name);
        assert(hero_symbol(63) == ' ');
        assert forall|i: int| 0 <= i < normal.len() implies is_symbol(
            TextForm::HeroName,
            #[trigger] normal[i],
        ) by {
            if i < symbols.len() {
                assert(normal[i] == symbols[i]);
            }
        }
    }
}

/// Tells whether `c` has the Unicode property White_Space.
pub fn is_whitespace(c: char) -> (r: bool)
    ensures
        r == is_white_space(c),
{
    let u: u32 = c as u32;
    (0x09 <= u && u <= 0x0D) || u == 0x20 || u == 0x85 || u == 0xA0 || u == 0x1680 || (0x2000 <= u
        && u <= 0x200A) || u == 0x2028 || u == 0x2029 || u == 0x202F || u == 0x205F || u
        == 0x3000
}

/// The symbols that one character of a hero's name stands for: one, or two.
pub open spec fn pair_seq(p: (char, Option<char>)) -> Seq<char> {
    match p.1 {
        Some(second) => seq![p.0, second],
        None => seq![p.0],
    }
}

/// The one or two symbols that the character `c` of a hero's name stands for.
pub fn normalize_hero_name_char(c: char) -> (symbols: (char, Option<char>))
    ensures
        pair_seq(symbols) == char_expansion(TextForm::HeroName, c),
{
    match c {
        '０' => ('0', None),
        '１' => ('1', None),
        '２' => ('2', None),
        '３' => ('3', None),
        '４' => ('4', None),
        '５' => ('5', None),
        '６' => ('6', None),
        '７' => ('7', None),
        '８' => ('8', None),
        '９' => ('9', None),
        'が' => ('か', Some('\u{309B}')),
        'ぎ' => ('き', Some('\u{309B}')),
        'ぐ' => ('く', Some('\u{309B}')),
        'げ' => ('け', Some('\u{309B}')),
        'ご' => ('こ', Some('\u{309B}')),
        'ざ' => ('さ', Some('\u{309B}')),
        'じ' => ('し', Some('\u{309B}')),
        'ず' => ('す', Some('\u{309B}')),
        'ぜ' => ('せ', Some('\u{309B}')),
        'ぞ' => ('そ', Some('\u{309B}')),
        'だ' => ('た', Some('\u{309B}')),
        'ぢ' => ('ち', Some('\u{309B}')),
        'づ' => ('つ', Some('\u{309B}')),
        'で' => ('て', Some('\u{309B}')),
        'ど' => ('と', Some('\u{309B}')),
        'ば' => ('は', Some('\u{309B}')),
        'び' => ('ひ', Some('\u{309B}')),
        'ぶ' => ('ふ', Some('\u{309B}')),
        'べ' => ('へ', Some('\u{309B}')),
        'ぼ' => ('ほ', Some('\u{309B}')),
        'ぱ' => ('は', Some('\u{309C}')),
        'ぴ' => ('ひ', Some('\u{309C}')),
        'ぷ' => ('ふ', Some('\u{309C}')),
        'ぺ' => ('へ', Some('\u{309C}')),
        'ぽ' => ('ほ', Some('\u{309C}')),
        '\u{3094}' => ('う', Some('\u{309B}')),
        '\u{3099}' => ('\u{309B}', None),
        '\u{309A}' => ('\u{309C}', None),
        '\u{2010}' => ('-', None),
        '\u{2011}' => ('-', None),
        '\u{2012}' => ('-', None),
        '\u{2013}' => ('-', None),
        '\u{2014}' => ('-', None),
        '\u{2015}' => ('-', None),
        '\u{2212}' => ('-', None),
        '\u{30FC}' => ('-', None),
        '\u{FF70}' => ('-', None),
        '\u{3000}' => (' ', None),
        _ => (c, None),
    }
}

/// The symbol that the character `c` of a password stands for, if any.
pub fn normalize_password_char(c: char) -> (symbol: Option<char>)
    ensures
        char_expansion(TextForm::Password, c) == match symbol {
            Some(s) => seq![s],
            None => Seq::empty(),
        },
{
    if is_whitespace(c) {
        None
    } else {
        Some(c)
    }
}

/// The symbol that the character `c` of a pattern stands for, if any.
pub fn normalize_pattern_char(c: char) -> (symbol: Option<char>)
    ensures
        char_expansion(TextForm::Pattern, c) == match symbol {
            Some(s) => seq![s],
            None => Seq::empty(),
        },
{
    if c == '\u{FF1F}' {
        Some('?')
    } else if is_whitespace(c) {
        None
    } else {
        Some(c)
    }
}

/// Tells whether `c` may stand in the canonical form of the given kind of
/// text.
fn is_symbol_of(form: &TextForm, c: char) -> (r: bool)
    ensures
        r == is_symbol(*form, c),
{
    match form {
        TextForm::HeroName => pack_hero_name_char(c).is_some(),
        TextForm::Password => password_char_to_cum(c).is_some(),
        TextForm::Pattern => password_char_to_cum(c).is_some() || c == '?',
    }
}

/// The characters of `cs` that may not stand in the canonical form of the
/// given kind of text: none if and only if all of them may.
fn strangers(form: &TextForm, cs: &Vec<char>) -> (bad: Vec<char>)
    ensures
        bad.len() == 0 <==> all_symbols(*form, cs@),
{
    let mut bad: Vec<char> = Vec::new();
    let mut i: usize = 0;
    while i < cs.len()
        invariant
            i <= cs.len(),
            bad.len() == 0 <==> all_symbols(*form, cs@.take(i as int)),
        decreases cs.len() - i,
    {
        let ghost before = cs@.take(i as int);
        let ghost after = cs@.take(i + 1);
        if !is_symbol_of(form, cs[i]) {
            bad.push(cs[i]);
            assert(after[i as int] == cs@[i as int]);
        } else {
            assert forall|k: int| 0 <= k < before.len() && all_symbols(*form, after)
                implies is_symbol(*form, #[trigger] before[k]) by {
                assert(after[k] == before[k]);
            }
            assert forall|k: int| 0 <= k < after.len() && all_symbols(*form, before)
                implies is_symbol(*form, #[trigger] after[k]) by {
                if k < i {
                    assert(before[k] == after[k]);
                }
            }
        }
        i += 1;
    }
    assert(cs@.take(i as int) == cs@);
    bad
}

/// Brings a hero's name into canonical form: each character is replaced by
/// the symbols it stands for, and the name is filled up with spaces to four
/// symbols. A name of more than four symbols, or with a symbol outside the
/// hero-name alphabet, is an invalid game state.
pub fn normalize_hero_name(hero_name: &str) -> (r: Dq1PasswordResult<String>)
    ensures
        outcome(r) == spec_normalize_hero_name(hero_name@),
{
    let input = chars_of(hero_name);
    let mut cs: Vec<char> = Vec::new();
    let mut i: usize = 0;
    while i < input.len() && cs.len() <= 4
        invariant
            i <= input.len(),
            cs@ == expansion(TextForm::HeroName, input@.take(i as int)),
        decreases input.len() - i,
    {
        let symbols = normalize_hero_name_char(input[i]);
        proof {
            lemma_expansion_step(TextForm::HeroName, input@, i as int);
        }
        cs.push(symbols.0);
        if let Some(second) = symbols.1 {
            cs.push(second);
        }
        i += 1;
    }
    proof {
        lemma_expansion_prefix(TextForm::HeroName, input@, i as int);
        if i == input.len() {
            assert(input@.take(i as int) == input@);
        }
    }
    if cs.len() > 4 {
        return Err(
            Dq1PasswordError::invalid_game_state(
                String::from_str(
                    "主人公の名前は 4 文字以内でなければならない(濁点、半濁点は 1 文字と数える)",
                ),
            ),
        );
    }
    let bad = strangers(&TextForm::HeroName, &cs);
    if bad.len() > 0 {
        let list = quoted_list(&bad);
        return Err(
            Dq1PasswordError::invalid_game_state(
                String::from_str("主人公の名前に無効な文字が含まれている: ").concat(list.as_str()),
            ),
        );
    }
    let ghost symbols = cs@;
    while cs.len() < 4
        invariant
            symbols.len() <= cs.len() <= 4,
            cs@ == symbols + Seq::new((cs.len() - symbols.len()) as nat, |i: int| ' '),
        decreases 4 - cs.len(),
    {
        cs.push(' ');
    }
    Ok(string_of(cs.as_slice()))
}

/// Brings a password into canonical form: white space is dropped. What is
/// left must be twenty symbols of the password alphabet.
pub fn normalize_password(password: &str) -> (r: Dq1PasswordResult<String>)
    ensures
        outcome(r) == spec_normalize_password(password@),
{
    let input = chars_of(password);
    let mut cs: Vec<char> = Vec::new();
    let mut i: usize = 0;
    while i < input.len() && cs.len() <= 20
        invariant
            i <= input.len(),
            cs@ == expansion(TextForm::Password, input@.take(i as int)),
        decreases input.len() - i,
    {
        let symbol = normalize_password_char(input[i]);
        proof {
            lemma_expansion_step(TextForm::Password, input@, i as int);
        }
        if let Some(c) = symbol {
            cs.push(c);
        }
        i += 1;
    }
    proof {
        lemma_expansion_prefix(TextForm::Password, input@, i as int);
        if i == input.len() {
            assert(input@.take(i as int) == input@);
        }
    }
    if cs.len() != 20 {
        return Err(
            Dq1PasswordError::invalid_password(
                String::from_str(
                    "復活の呪文はちょうど 20 文字でなければならない(ただし空白文字は無視される)",
                ),
            ),
        );
    }
    let bad = strangers(&TextForm::Password, &cs);
    if bad.len() > 0 {
        let list = quoted_list(&bad);
        return Err(
            Dq1PasswordError::invalid_password(
                String::from_str("復活の呪文に無効な文字が含まれている: ").concat(list.as_str()),
            ),
        );
    }
    Ok(string_of(cs.as_slice()))
}

/// Brings a pattern into canonical form: white space is dropped and the
/// full-width question mark becomes the wildcard `?`. What is left must be
/// twenty characters, each a symbol of the password alphabet or `?`.
pub fn normalize_pattern(pattern: &str) -> (r: Dq1PasswordResult<String>)
    ensures
        outcome(r) == spec_normalize_pattern(pattern@),
{
    let input = chars_of(pattern);
    let mut cs: Vec<char> = Vec::new();
    let mut i: usize = 0;
    while i < input.len() && cs.len() <= 20
        invariant
            i <= input.len(),
            cs@ == expansion(TextForm::Pattern, input@.take(i as int)),
        decreases input.len() - i,
    {
        let symbol = normalize_pattern_char(input[i]);
        proof {
            lemma_expansion_step(TextForm::Pattern, input@, i as int);
        }
        if let Some(c) = symbol {
            cs.push(c);
        }
        i += 1;
    }
    proof {
        lemma_expansion_prefix(TextForm::Pattern, input@, i as int);
        if i == input.len() {
            assert(input@.take(i as int) == input@);
        }
    }
    if cs.len() != 20 {
        return Err(
            Dq1PasswordError::invalid_pattern(
                String::from_str(
                    "パターンはちょうど 20 文字でなければならない(ただし空白文字は無視される)",
                ),
            ),
        );
    }
    let bad = strangers(&TextForm::Pattern, &cs);
    if bad.len() > 0 {
        let list = quoted_list(&bad);
        return Err(
            Dq1PasswordError::invalid_pattern(
                String::from_str("パターンに無効な文字が含まれている: ").concat(list.as_str()),
            ),
        );
    }
    Ok(string_of(cs.as_slice()))
}

} // verus!
