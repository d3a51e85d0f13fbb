//! The twenty six-bit units of a buffer of fifteen bytes, and their running
//! sums.

use vstd::prelude::*;

verus! {

/// The six-bit unit with index `i` of the buffer `bytes`. Each three bytes
/// hold four units: the first in the low six bits of the first byte, the
/// second in its top two bits and the low four bits of the second byte, the
/// third in the top four bits of the second byte and the low two bits of the
/// third, the fourth in the top six bits of the third.
pub open spec fn six_at(bytes: Seq<u8>, i: int) -> u8
    recommends
        0 <= i < 20,
        bytes.len() == 15,
{
    let b0 = bytes[i / 4 * 3];
    let b1 = bytes[i / 4 * 3 + 1];
    let b2 = bytes[i / 4 * 3 + 2];
    if i % 4 == 0 {
        b0 & 0x3F
    } else if i % 4 == 1 {
        (b0 >> 6) | ((b1 & 0xF) << 2)
    } else if i % 4 == 2 {
        (b1 >> 4) | ((b2 & 0x3) << 4)
    } else {
        b2 >> 2
    }
}

/// The twenty six-bit units of a buffer of fifteen bytes.
pub open spec fn bytes_to_sixes(bytes: Seq<u8>) -> Seq<u8>
    recommends
        bytes.len() == 15,
{
    Seq::new(20, |i: int| six_at(bytes, i))
}

/// The byte with index `k` of the buffer that holds the six-bit units
/// `sixes`.
pub open spec fn byte_at(sixes: Seq<u8>, k: int) -> u8
    recommends
        0 <= k < 15,
        sixes.len() == 20,
{
    let s0 = sixes[k / 3 * 4];
    let s1 = sixes[k / 3 * 4 + 1];
    let s2 = sixes[k / 3 * 4 + 2];
    let s3 = sixes[k / 3 * 4 + 3];
    if k % 3 == 0 {
        s0 | (s1 << 6)
    } else if k % 3 == 1 {
        (s1 >> 2) | (s2 << 4)
    } else {
        (s2 >> 4) | (s3 << 2)
    }
}

/// The buffer of fifteen bytes that holds twenty six-bit units.
pub open spec fn spec_sixs_to_bytes(sixes: Seq<u8>) -> Seq<u8>
    recommends
        sixes.len() == 20,
{
    Seq::new(15, |k: int| byte_at(sixes, k))
}

/// Twenty units, each below 64.
pub open spec fn is_sixes(sixes: Seq<u8>) -> bool {
    sixes.len() == 20 && forall|i: int| 0 <= i < 20 ==> #[trigger] sixes[i] < 64
}

/// The running sum of the units up to index `i`, each counted four higher,
/// modulo 64. It is 0 before the first unit.
pub open spec fn cumulative(sixes: Seq<u8>, i: int) -> int
    decreases i + 1,
{
    if i < 0 {
        0
    } else {
        (cumulative(sixes, i - 1) + sixes[i] + 4) % 64
    }
}

/// The unit that leads from the running sum `before` to the running sum
/// `after`.
pub open spec fn difference(before: int, after: int) -> u8 {
    ((after - before - 4) % 64) as u8
}

/// Four units taken out of three bytes are below 64 and give the three
/// bytes back.
pub proof fn lemma_split_three_bytes(b0: u8, b1: u8, b2: u8)
    by (bit_vector)
    ensures
        b0 & 0x3F < 64,
        (b0 >> 6) | ((b1 & 0xF) << 2) < 64,
        (b1 >> 4) | ((b2 & 0x3) << 4) < 64,
        b2 >> 2 < 64,
        (b0 & 0x3F) | (((b0 >> 6) | ((b1 & 0xF) << 2)) << 6) == b0,
        (((b0 >> 6) | ((b1 & 0xF) << 2)) >> 2) | (((b1 >> 4) | ((b2 & 0x3) << 4)) << 4) == b1,
        (((b1 >> 4) | ((b2 & 0x3) << 4)) >> 4) | ((b2 >> 2) << 2) == b2,
{
}

/// Three bytes put together from four units below 64 give the four units
/// back.
pub proof fn lemma_join_four_sixes(s0: u8, s1: u8, s2: u8, s3: u8)
    by (bit_vector)
    requires
        s0 < 64,
        s1 < 64,
        s2 < 64,
        s3 < 64,
    ensures
        (s0 | (s1 << 6)) & 0x3F == s0,
        ((s0 | (s1 << 6)) >> 6) | ((((s1 >> 2) | (s2 << 4)) & 0xF) << 2) == s1,
        (((s1 >> 2) | (s2 << 4)) >> 4) | ((((s2 >> 4) | (s3 << 2)) & 0x3) << 4) == s2,
        ((s2 >> 4) | (s3 << 2)) >> 2 == s3,
{
}

/// The units of a buffer are below 64.
pub proof fn lemma_sixes_in_range(bytes: Seq<u8>)
    requires
        bytes.len() == 15,
    ensures
        is_sixes(bytes_to_sixes(bytes)),
{
    assert forall|i: int| 0 <= i < 20 implies #[trigger] bytes_to_sixes(bytes)[i] < 64 by {
        lemma_split_three_bytes(bytes[i / 4 * 3], bytes[i / 4 * 3 + 1], bytes[i / 4 * 3 + 2]);
    }
}

/// Taking the units out of a buffer and putting them together again gives
/// the buffer back.
pub proof fn lemma_bytes_sixes_bytes(bytes: Seq<u8>)
    requires
        bytes.len() == 15,
    ensures
        spec_sixs_to_bytes(bytes_to_sixes(bytes)) == bytes,
{
    let sixes = bytes_to_sixes(bytes);
    assert forall|k: int| 0 <= k < 15 implies byte_at(sixes, k) == bytes[k] by {
        let g = k / 3;
        lemma_split_three_bytes(bytes[g * 3], bytes[g * 3 + 1], bytes[g * 3 + 2]);
        assert(sixes[g * 4] == six_at(bytes, g * 4));
        assert(sixes[g * 4 + 1] == six_at(bytes, g * 4 + 1));
        assert(sixes[g * 4 + 2] == six_at(bytes, g * 4 + 2));
        assert(sixes[g * 4 + 3] == six_at(bytes, g * 4 + 3));
    }
}

/// Putting units together and taking them out again gives the units back.
pub proof fn lemma_sixes_bytes_sixes(sixes: Seq<u8>)
    requires
        is_sixes(sixes),
    ensures
        bytes_to_sixes(spec_sixs_to_bytes(sixes)) == sixes,
{
    let bytes = spec_sixs_to_bytes(sixes);
    assert forall|i: int| 0 <= i < 20 implies six_at(bytes, i) == sixes[i] by {
        let g = i / 4;
        lemma_join_four_sixes(sixes[g * 4], sixes[g * 4 + 1], sixes[g * 4 + 2], sixes[g * 4 + 3]);
        assert(bytes[g * 3] == byte_at(sixes, g * 3));
        assert(bytes[g * 3 + 1] == byte_at(sixes, g * 3 + 1));
        assert(bytes[g * 3 + 2] == byte_at(sixes, g * 3 + 2));
    }
}

/// The running sums are below 64.
pub proof fn lemma_cumulative_range(sixes: Seq<u8>, i: int)
    ensures
        0 <= cumulative(sixes, i) < 64,
    decreases i + 1,
{
    if i >= 0 {
        lemma_cumulative_range(sixes, i - 1);
    }
}

/// A unit is the difference of the running sums around it.
pub proof fn lemma_difference_of_cumulative(sixes: Seq<u8>, i: int)
    requires
        0 <= i < sixes.len(),
        sixes[i] < 64,
    ensures
        difference(cumulative(sixes, i - 1), cumulative(sixes, i)) == sixes[i],
{
    lemma_cumulative_range(sixes, i - 1);
}

/// The sum of a start and the unit that leads from it to an end is the end.
pub proof fn lemma_cumulative_of_difference(before: int, after: int)
    requires
        0 <= before < 64,
        0 <= after < 64,
    ensures
        difference(before, after) < 64,
        (before + difference(before, after) + 4) % 64 == after,
{
}

/// Puts twenty six-bit units together into a buffer of fifteen bytes.
pub fn sixs_to_bytes(sixs: &[u8; 20]) -> (bytes: [u8; 15])
    ensures
        bytes@ == spec_sixs_to_bytes(sixs@),
{
    let mut bytes = [0u8; 15];
    let mut g: usize = 0;
    while g < 5
        invariant
            g <= 5,
            forall|k: int| 0 <= k < 3 * g ==> bytes@[k] == byte_at(sixs@, k),
        decreases 5 - g,
    {
        let s0 = sixs[4 * g];
        let s1 = sixs[4 * g + 1];
        let s2 = sixs[4 * g + 2];
        let s3 = sixs[4 * g + 3];
        bytes[3 * g] = s0 | (s1 << 6);
        bytes[3 * g + 1] = (s1 >> 2) | (s2 << 4);
        bytes[3 * g + 2] = (s2 >> 4) | (s3 << 2);
        g += 1;
    }
    bytes
}

/// The running sum after one more six-bit unit.
pub fn next_cum(cum: u8, six: u8) -> (next: u8)
    requires
        cum < 64,
        six < 64,
    ensures
        next == (cum + six + 4) % 64,
{
    let sum: u8 = cum + six + 4;
    assert(sum & 0x3F == sum % 64) by (bit_vector);
    sum & 0x3F
}

/// The six-bit unit that leads from the running sum `pre` to the running
/// sum `cur`.
pub fn six_between(pre: u8, cur: u8) -> (six: u8)
    requires
        pre < 64,
        cur < 64,
    ensures
        six == difference(pre as int, cur as int),
        six < 64,
{
    let raised: u8 = cur + 124 - pre;
    assert(raised & 0x3F == raised % 64) by (bit_vector);
    raised & 0x3F
}

} // verus!
