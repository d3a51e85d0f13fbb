//! What a search for a pattern looks for, said of six-bit units, and the
//! steps by which a search comes to it.

use vstd::prelude::*;
use crate::alphabet::{lemma_password_alphabet, password_index, password_symbol};
use crate::decode::{
    holds_valid_counts, password_cum, password_sixes, spec_bytes_to_state, spec_decode,
};
use crate::encode::spec_bytes_to_password;
use crate::normalize::{is_password, is_pattern, is_symbol, TextForm};
use crate::roundtrip::{
    lemma_bytes_password_bytes, lemma_password_bytes_password, lemma_password_is_normal,
    lemma_rendered_is_password,
};
use crate::sixbit::{
    cumulative, is_sixes, lemma_cumulative_of_difference, lemma_cumulative_range,
    lemma_sixes_bytes_sixes, spec_sixs_to_bytes,
};
use crate::tables::{crc8_sum, lemma_check_byte_is_sum, spec_crc8_tail};

verus! {

/// Whether `password` has, at each position where `pattern` has no
/// wildcard, the character that `pattern` has there.
pub open spec fn matches_pattern(pattern: Seq<char>, password: Seq<char>) -> bool {
    &&& pattern.len() == 20
    &&& password.len() == 20
    &&& forall|i: int| 0 <= i < 20 ==> pattern[i] == '?' || #[trigger] pattern[i] == password[i]
}

/// Whether `password` is one that a search for `pattern` may return: it is
/// in canonical form, matches the pattern and decodes.
#[verifier::opaque]
pub open spec fn is_solution(pattern: Seq<char>, password: Seq<char>) -> bool {
    is_password(password) && matches_pattern(pattern, password) && spec_decode(password) is Ok
}

/// A pattern as the search reads it: at each position the index that the
/// symbol must have in the password alphabet, or nothing at a wildcard.
pub open spec fn pattern_cums(pattern: Seq<char>) -> Seq<Option<u8>> {
    Seq::new(20, |i: int| password_index(pattern[i]))
}

/// Whether a pattern lets the running sum `cum` stand at a position where
/// it asks for `want`.
pub open spec fn cum_allowed(want: Option<u8>, cum: int) -> bool {
    match want {
        Some(index) => index == cum,
        None => 0 <= cum < 64,
    }
}

/// Whether the two upper bits of a unit are set: the next unit then
/// completes an inventory slot whose two lower bits are set.
pub open spec fn carries(six: u8) -> bool {
    six >> 4 == 3
}

/// Whether the unit `six` at index `i` of the tail keeps the herbs, the
/// keys and the inventory within their limits, where `carry` says whether
/// the unit before it carries.
pub open spec fn keeps_counts(i: int, carry: bool, six: u8) -> bool {
    &&& !(i == 11 && six >> 2 >= 7)
    &&& !(i == 12 && six & 0xF >= 7)
    &&& !((i == 2 || i == 6) && six & 0xF == 15)
    &&& !((i == 13 || i == 17) && six >> 2 == 15)
    &&& !((i == 3 || i == 7 || i == 13 || i == 17) && carry && six & 3 == 3)
}

/// Where a search stands after some units of the tail: the running sum,
/// the low byte of what the units so far add to the CRC, and whether the
/// last unit carries.
pub struct Node {
    pub cum: u8,
    pub crc: u8,
    pub carry: bool,
}

/// Where the search stands after the unit `six` at index `i` of the tail,
/// when it stood at `node` before it.
pub open spec fn advance(i: int, node: Node, six: u8) -> Node {
    Node {
        cum: ((node.cum + six + 4) % 64) as u8,
        crc: node.crc ^ spec_crc8_tail(i, six),
        carry: carries(six),
    }
}

/// Whether the search may take the unit `six` at index `i` of the tail
/// from `node`: it keeps the counts valid and leads to a running sum that
/// the pattern allows.
pub open spec fn edge_ok(cums: Seq<Option<u8>>, i: int, node: Node, six: u8) -> bool {
    &&& six < 64
    &&& keeps_counts(i, node.carry, six)
    &&& cum_allowed(cums[i + 2], (node.cum + six + 4) % 64)
}

/// Where the search stands on the units `x` before index `i` of the tail.
pub open spec fn node_at(x: Seq<u8>, i: int) -> Node {
    Node {
        cum: cumulative(x, i + 1) as u8,
        crc: crc8_sum(x, i),
        carry: i > 0 && carries(x[i + 1]),
    }
}

/// Whether the unit of `x` at index `i` of the tail keeps the counts valid.
pub open spec fn counts_ok(x: Seq<u8>, i: int) -> bool {
    keeps_counts(i, node_at(x, i).carry, x[i + 2])
}

/// Whether the pattern allows the running sum of `x` at `position`.
pub open spec fn sum_allowed(cums: Seq<Option<u8>>, x: Seq<u8>, position: int) -> bool {
    cum_allowed(cums[position], cumulative(x, position))
}

/// Whether the search may take the unit of `x` at index `i` of the tail.
pub open spec fn step_ok(cums: Seq<Option<u8>>, x: Seq<u8>, i: int) -> bool {
    edge_ok(cums, i, node_at(x, i), x[i + 2])
}

/// Whether the search may take every unit of `x` from index `lo` of the
/// tail up to index `hi`.
pub open spec fn steps_ok(cums: Seq<Option<u8>>, x: Seq<u8>, lo: int, hi: int) -> bool {
    forall|i: int| lo <= i < hi ==> #[trigger] step_ok(cums, x, i)
}

/// Whether the first two units of `x` lead to running sums that the
/// pattern allows.
pub open spec fn head_ok(cums: Seq<Option<u8>>, x: Seq<u8>) -> bool {
    sum_allowed(cums, x, 0) && sum_allowed(cums, x, 1)
}

/// Whether the units `x` are what a search for the pattern looks for: the
/// pattern allows every running sum, every unit of the tail keeps the
/// counts valid, and the sum of what the units add to the CRC is the check
/// byte that the first two units hold.
pub open spec fn is_trail(cums: Seq<Option<u8>>, x: Seq<u8>) -> bool {
    &&& is_sixes(x)
    &&& forall|position: int| 0 <= position < 20 ==> #[trigger] sum_allowed(cums, x, position)
    &&& forall|i: int| 0 <= i < 18 ==> #[trigger] counts_ok(x, i)
    &&& crc8_sum(x, 18) == x[0] | (x[1] << 6)
}

/// A step of the search is one that keeps the counts valid and leads to a
/// running sum that the pattern allows.
pub proof fn lemma_step_ok(cums: Seq<Option<u8>>, x: Seq<u8>, i: int)
    requires
        is_sixes(x),
        0 <= i < 18,
    ensures
        step_ok(cums, x, i) <==> counts_ok(x, i) && sum_allowed(cums, x, i + 2),
{
    lemma_cumulative_range(x, i + 1);
}

/// The units `x` are what a search looks for if and only if the pattern
/// allows their head, the search may take every unit of their tail, and
/// the sum of what they add to the CRC is the check byte they hold.
pub proof fn lemma_trail_by_steps(cums: Seq<Option<u8>>, x: Seq<u8>)
    requires
        is_sixes(x),
    ensures
        is_trail(cums, x) <==> head_ok(cums, x) && steps_ok(cums, x, 0, 18) && crc8_sum(x, 18)
            == x[0] | (x[1] << 6),
{
    if is_trail(cums, x) {
        assert forall|i: int| 0 <= i < 18 implies #[trigger] step_ok(cums, x, i) by {
            lemma_step_ok(cums, x, i);
            assert(counts_ok(x, i));
            assert(sum_allowed(cums, x, i + 2));
        }
    }
    if head_ok(cums, x) && steps_ok(cums, x, 0, 18) && crc8_sum(x, 18) == x[0] | (x[1] << 6) {
        assert forall|position: int| 0 <= position < 20 implies #[trigger] sum_allowed(
            cums,
            x,
            position,
        ) by {
            if position >= 2 {
                lemma_step_ok(cums, x, position - 2);
                assert(step_ok(cums, x, position - 2));
            }
        }
        assert forall|i: int| 0 <= i < 18 implies #[trigger] counts_ok(x, i) by {
            lemma_step_ok(cums, x, i);
            assert(step_ok(cums, x, i));
        }
    }
}

/// The search stands after a unit where `advance` says.
pub proof fn lemma_node_advance(x: Seq<u8>, i: int)
    requires
        is_sixes(x),
        0 <= i < 18,
    ensures
        node_at(x, i + 1) == advance(i, node_at(x, i), x[i + 2]),
        node_at(x, i).cum < 64,
{
    lemma_cumulative_range(x, i + 1);
    lemma_cumulative_range(x, i + 2);
}

/// Where the search stands before index `i` depends on the units before
/// position `i + 2` only.
pub proof fn lemma_node_frame(x: Seq<u8>, y: Seq<u8>, i: int)
    requires
        0 <= i <= 18,
        x.len() == 20,
        y.len() == 20,
        forall|p: int| 0 <= p < i + 2 ==> x[p] == y[p],
    ensures
        node_at(x, i) == node_at(y, i),
{
    lemma_cumulative_frame(x, y, i + 1);
    lemma_crc8_sum_frame(x, y, i);
}

proof fn lemma_cumulative_frame(x: Seq<u8>, y: Seq<u8>, i: int)
    requires
        -1 <= i < 20,
        x.len() == 20,
        y.len() == 20,
        forall|p: int| 0 <= p <= i ==> x[p] == y[p],
    ensures
        cumulative(x, i) == cumulative(y, i),
    decreases i + 1,
{
    if i >= 0 {
        lemma_cumulative_frame(x, y, i - 1);
    }
}

proof fn lemma_crc8_sum_frame(x: Seq<u8>, y: Seq<u8>, i: int)
    requires
        0 <= i <= 18,
        x.len() == 20,
        y.len() == 20,
        forall|p: int| 0 <= p < i + 2 ==> x[p] == y[p],
    ensures
        crc8_sum(x, i) == crc8_sum(y, i),
    decreases i,
{
    if i > 0 {
        lemma_crc8_sum_frame(x, y, i - 1);
    }
}

/// What the bytes that hold counts are made of.
proof fn lemma_count_fields(s0: u8, s1: u8, s2: u8, s3: u8)
    by (bit_vector)
    requires
        s0 < 64,
        s1 < 64,
        s2 < 64,
        s3 < 64,
    ensures
        ((s0 | (s1 << 6)) & 0xF <= 14) <==> s0 & 0xF != 15,
        ((s0 | (s1 << 6)) >> 4 <= 14) <==> !(s0 >> 4 == 3 && s1 & 3 == 3),
        ((s1 >> 2) | (s2 << 4)) & 0xF == s1 >> 2,
        ((s1 >> 2) | (s2 << 4)) >> 4 == s2 & 0xF,
        (((s2 >> 4) | (s3 << 2)) & 0xF <= 14) <==> !(s2 >> 4 == 3 && s3 & 3 == 3),
        (((s2 >> 4) | (s3 << 2)) >> 4 <= 14) <==> s3 >> 2 != 15,
{
}

/// The units keep the counts valid at every step if and only if the state
/// that their buffer holds has its herbs, keys and inventory within their
/// limits.
pub proof fn lemma_counts(x: Seq<u8>)
    requires
        is_sixes(x),
    ensures
        holds_valid_counts(spec_bytes_to_state(spec_sixs_to_bytes(x))) <==> (forall|i: int|
            0 <= i < 18 ==> #[trigger] counts_ok(x, i)),
{
    let bytes = spec_sixs_to_bytes(x);
    let state = spec_bytes_to_state(bytes);
    let inventory = state.inventory;
    lemma_count_fields(x[4], x[5], x[6], x[7]);
    lemma_count_fields(x[8], x[9], x[10], x[11]);
    lemma_count_fields(x[12], x[13], x[14], x[15]);
    lemma_count_fields(x[16], x[17], x[18], x[19]);
    assert(bytes[3] == x[4] | (x[5] << 6));
    assert(bytes[6] == x[8] | (x[9] << 6));
    assert(bytes[10] == (x[13] >> 2) | (x[14] << 4));
    assert(bytes[11] == (x[14] >> 4) | (x[15] << 2));
    assert(bytes[14] == (x[18] >> 4) | (x[19] << 2));
    if holds_valid_counts(state) {
        assert(inventory[0] <= 14 && inventory[1] <= 14 && inventory[2] <= 14
            && inventory[3] <= 14);
        assert(inventory[4] <= 14 && inventory[5] <= 14 && inventory[6] <= 14
            && inventory[7] <= 14);
        assert forall|i: int| 0 <= i < 18 implies #[trigger] counts_ok(x, i) by {}
    }
    if forall|i: int| 0 <= i < 18 ==> #[trigger] counts_ok(x, i) {
        assert(counts_ok(x, 2));
        assert(counts_ok(x, 3));
        assert(counts_ok(x, 6));
        assert(counts_ok(x, 7));
        assert(counts_ok(x, 11));
        assert(counts_ok(x, 12));
        assert(counts_ok(x, 13));
        assert(counts_ok(x, 17));
        assert forall|k: int| 0 <= k < 8 implies #[trigger] inventory[k] <= 14 by {}
    }
}

/// The pattern allows a running sum at a position if and only if it has a
/// wildcard there or the symbol with that index.
proof fn lemma_cum_allowed(pattern: Seq<char>, i: int, cum: int)
    requires
        is_pattern(pattern),
        0 <= i < 20,
        0 <= cum < 64,
    ensures
        cum_allowed(pattern_cums(pattern)[i], cum) <==> (pattern[i] == '?' || pattern[i]
            == password_symbol(cum as u8)),
{
    lemma_password_alphabet();
    assert(is_symbol(TextForm::Pattern, pattern[i]));
    assert(password_index('?') is None);
    assert(password_index(password_symbol(cum as u8)) == Some(cum as u8));
}

/// The pattern allows every running sum of the units `x` if and only if
/// the password of their buffer matches the pattern.
proof fn lemma_sums_match(pattern: Seq<char>, x: Seq<u8>)
    requires
        is_pattern(pattern),
        is_sixes(x),
    ensures
        (forall|position: int|
            0 <= position < 20 ==> #[trigger] sum_allowed(pattern_cums(pattern), x, position))
            <==> matches_pattern(pattern, spec_bytes_to_password(spec_sixs_to_bytes(x))),
{
    let cums = pattern_cums(pattern);
    let password = spec_bytes_to_password(spec_sixs_to_bytes(x));
    lemma_sixes_bytes_sixes(x);
    assert forall|i: int| 0 <= i < 20 implies (#[trigger] sum_allowed(cums, x, i) <==> (pattern[i]
        == '?' || pattern[i] == password[i])) by {
        lemma_cumulative_range(x, i);
        lemma_cum_allowed(pattern, i, cumulative(x, i));
    }
    if matches_pattern(pattern, password) {
        assert forall|i: int| 0 <= i < 20 implies #[trigger] sum_allowed(cums, x, i) by {
            assert(pattern[i] == '?' || pattern[i] == password[i]);
        }
    }
    if forall|position: int| 0 <= position < 20 ==> #[trigger] sum_allowed(cums, x, position) {
        assert forall|i: int| 0 <= i < 20 implies pattern[i] == '?' || #[trigger] pattern[i]
            == password[i] by {
            assert(sum_allowed(cums, x, i));
        }
    }
}

/// The password of the buffer of the units `x` decodes if and only if the
/// units keep the counts valid and the sum of what they add to the CRC is
/// the check byte they hold.
proof fn lemma_decodes(x: Seq<u8>)
    requires
        is_sixes(x),
    ensures
        spec_decode(spec_bytes_to_password(spec_sixs_to_bytes(x))) is Ok <==> (forall|i: int|
            0 <= i < 18 ==> #[trigger] counts_ok(x, i)) && crc8_sum(x, 18) == x[0] | (x[1] << 6),
{
    let bytes = spec_sixs_to_bytes(x);
    let password = spec_bytes_to_password(bytes);
    lemma_rendered_is_password(bytes);
    lemma_password_is_normal(password);
    lemma_bytes_password_bytes(bytes);
    lemma_check_byte_is_sum(x);
    lemma_counts(x);
    assert(bytes[0] == x[0] | (x[1] << 6));
}

/// The units `x` are what a search for a pattern looks for if and only if
/// the password of their buffer is one that the search may return.
pub proof fn lemma_trail_is_solution(pattern: Seq<char>, x: Seq<u8>)
    requires
        is_pattern(pattern),
        is_sixes(x),
    ensures
        is_trail(pattern_cums(pattern), x) <==> is_solution(
            pattern,
            spec_bytes_to_password(spec_sixs_to_bytes(x)),
        ),
{
    reveal(is_solution);
    lemma_rendered_is_password(spec_sixs_to_bytes(x));
    lemma_sums_match(pattern, x);
    lemma_decodes(x);
}

/// A password that a search may return is in canonical form.
pub proof fn lemma_solution_is_password(pattern: Seq<char>, password: Seq<char>)
    requires
        is_solution(pattern, password),
    ensures
        is_password(password),
{
    reveal(is_solution);
}

/// Every password that a search may return is the password of the buffer
/// of its own units, and those are below 64.
pub proof fn lemma_solution_has_trail(password: Seq<char>)
    requires
        is_password(password),
    ensures
        is_sixes(password_sixes(password)),
        spec_bytes_to_password(spec_sixs_to_bytes(password_sixes(password))) == password,
{
    lemma_password_bytes_password(password);
    lemma_password_alphabet();
    assert forall|i: int| 0 <= i < 20 implies #[trigger] password_sixes(password)[i] < 64 by {
        assert(is_symbol(TextForm::Password, password[i]));
        if i > 0 {
            assert(is_symbol(TextForm::Password, password[i - 1]));
        }
        lemma_cumulative_of_difference(
            password_cum(password, i - 1),
            password_cum(password, i),
        );
    }
}

} // verus!
