//! Strings and their characters, and the text of diagnostics.

use itertools::Itertools;
use vstd::prelude::*;
use vstd::string::StringExecFns;

verus! {

/// `String::push` appends one character to the string.
pub assume_specification[ String::push ](s: &mut String, c: char)
    ensures
        final(s)@ == old(s)@.push(c),
;

/// The characters `cs` with `sep` between each two of them.
pub open spec fn joined(cs: Seq<char>, sep: Seq<char>) -> Seq<char>
    decreases cs.len(),
{
    if cs.len() == 0 {
        Seq::empty()
    } else if cs.len() == 1 {
        cs
    } else {
        joined(cs.drop_last(), sep) + sep + seq![cs.last()]
    }
}

/// `itertools::Itertools::join` on the characters of `cs`: each character
/// as it is, with `sep` between each two of them, and nothing where there
/// is no character.
#[verifier::external_body]
pub(crate) fn join_chars(cs: &Vec<char>, sep: &str) -> (text: String)
    ensures
        text@ == joined(cs@, sep@),
{
    cs.iter().join(sep)
}

/// The characters of `s`, in order.
pub fn chars_of(s: &str) -> (cs: Vec<char>)
    ensures
        cs@ == s@,
{
    let mut cs: Vec<char> = Vec::new();
    for c in it: s.chars()
        invariant
            it.seq() == s@,
            cs@ == it.seq().take(it.index()),
    {
        cs.push(c);
    }
    cs
}

/// The string made of the characters `cs`, in order.
pub fn string_of(cs: &[char]) -> (s: String)
    ensures
        s@ == cs@,
{
    let mut s = String::new();
    let mut i: usize = 0;
    while i < cs.len()
        invariant
            i <= cs.len(),
            s@ == cs@.take(i as int),
        decreases cs.len() - i,
    {
        s.push(cs[i]);
        i += 1;
    }
    s
}

/// The digit for a number below 16, the letters in upper case.
pub open spec fn digit_symbol(d: u16) -> char {
    if d == 0 {
        '0'
    } else if d == 1 {
        '1'
    } else if d == 2 {
        '2'
    } else if d == 3 {
        '3'
    } else if d == 4 {
        '4'
    } else if d == 5 {
        '5'
    } else if d == 6 {
        '6'
    } else if d == 7 {
        '7'
    } else if d == 8 {
        '8'
    } else if d == 9 {
        '9'
    } else if d == 10 {
        'A'
    } else if d == 11 {
        'B'
    } else if d == 12 {
        'C'
    } else if d == 13 {
        'D'
    } else if d == 14 {
        'E'
    } else {
        'F'
    }
}

/// A byte in decimal, without leading zeros.
pub open spec fn decimal(n: u8) -> Seq<char> {
    let value = n as u16;
    if value < 10 {
        seq![digit_symbol(value)]
    } else if value < 100 {
        seq![digit_symbol(value / 10), digit_symbol(value % 10)]
    } else {
        seq![digit_symbol(value / 100), digit_symbol(value / 10 % 10), digit_symbol(value % 10)]
    }
}

/// A 16-bit value in hexadecimal, in upper case, with at least two digits.
pub open spec fn hexadecimal(n: u16) -> Seq<char> {
    if n < 0x100 {
        seq![digit_symbol(n / 16), digit_symbol(n % 16)]
    } else if n < 0x1000 {
        seq![digit_symbol(n / 256), digit_symbol(n / 16 % 16), digit_symbol(n % 16)]
    } else {
        seq![
            digit_symbol(n / 4096),
            digit_symbol(n / 256 % 16),
            digit_symbol(n / 16 % 16),
            digit_symbol(n % 16),
        ]
    }
}

/// The diagnostic for a number above its limit.
pub open spec fn limit_text(what: Seq<char>, max: u8, value: u8) -> Seq<char> {
    what + "は "@ + decimal(max) + " 以下でなければならない: "@ + decimal(value)
}

/// The diagnostic for an inventory slot: the slot's position and the
/// diagnostic of its content.
pub open spec fn slot_text(slot: u8, inner: Seq<char>) -> Seq<char> {
    "インベントリ["@ + decimal(slot) + "]: "@ + inner
}

/// The diagnostic for a check byte that does not belong to the payload: the
/// stored byte and the CRC of the payload, in hexadecimal.
pub open spec fn crc_text(expect: u8, actual: u16) -> Seq<char> {
    "CRC 下位バイトが一致しない: expect=0x??"@ + hexadecimal(expect as u16) + ", actual=0x"@
        + hexadecimal(actual)
}

/// The characters `cs`, each between single quotes, with commas between
/// them.
pub open spec fn quoted_text(cs: Seq<char>) -> Seq<char> {
    "'"@ + joined(cs, "', '"@) + "'"@
}

/// The digit for a number below 16.
fn digit(d: u16) -> (c: char)
    requires
        d < 16,
    ensures
        c == digit_symbol(d),
{
    if d == 0 {
        '0'
    } else if d == 1 {
        '1'
    } else if d == 2 {
        '2'
    } else if d == 3 {
        '3'
    } else if d == 4 {
        '4'
    } else if d == 5 {
        '5'
    } else if d == 6 {
        '6'
    } else if d == 7 {
        '7'
    } else if d == 8 {
        '8'
    } else if d == 9 {
        '9'
    } else if d == 10 {
        'A'
    } else if d == 11 {
        'B'
    } else if d == 12 {
        'C'
    } else if d == 13 {
        'D'
    } else if d == 14 {
        'E'
    } else {
        'F'
    }
}

/// Writes a byte in decimal at the end of a string.
fn push_decimal(text: &mut String, n: u8)
    ensures
        final(text)@ == old(text)@ + decimal(n),
{
    let value = n as u16;
    if n >= 100 {
        text.push(digit(value / 100));
    }
    if n >= 10 {
        text.push(digit(value / 10 % 10));
    }
    text.push(digit(value % 10));
}

/// Writes a 16-bit value in hexadecimal at the end of a string.
fn push_hexadecimal(text: &mut String, n: u16)
    ensures
        final(text)@ == old(text)@ + hexadecimal(n),
{
    if n >= 0x1000 {
        text.push(digit(n / 4096));
    }
    if n >= 0x100 {
        text.push(digit(n / 256 % 16));
    }
    text.push(digit(n / 16 % 16));
    text.push(digit(n % 16));
}

/// The diagnostic for a number above its limit.
pub fn limit_message(what: &str, max: u8, value: u8) -> (text: String)
    ensures
        text@ == limit_text(what@, max, value),
{
    let mut text = String::from_str(what);
    text.append("は ");
    push_decimal(&mut text, max);
    text.append(" 以下でなければならない: ");
    push_decimal(&mut text, value);
    text
}

/// The diagnostic for an inventory slot.
pub fn slot_message(slot: u8, inner: &str) -> (text: String)
    ensures
        text@ == slot_text(slot, inner@),
{
    let mut text = String::from_str("インベントリ[");
    push_decimal(&mut text, slot);
    text.append("]: ");
    text.append(inner);
    text
}

/// The diagnostic for a check byte that does not belong to the payload.
pub fn crc_message(expect: u8, actual: u16) -> (text: String)
    ensures
        text@ == crc_text(expect, actual),
{
    let mut text = String::from_str("CRC 下位バイトが一致しない: expect=0x??");
    push_hexadecimal(&mut text, expect as u16);
    text.append(", actual=0x");
    push_hexadecimal(&mut text, actual);
    text
}

/// The characters `cs`, each between single quotes, with commas between
/// them.
pub fn quoted_list(cs: &Vec<char>) -> (text: String)
    ensures
        text@ == quoted_text(cs@),
{
    let mut text = String::from_str("'");
    let list = join_chars(cs, "', '");
    text.append(list.as_str());
    text.append("'");
    text
}

} // verus!
