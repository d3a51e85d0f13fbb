//! What each six-bit unit of a buffer adds to the CRC of its payload.

use vstd::prelude::*;
use crate::crc::{
    check_byte, crc16, crc_step, crc_steps, crc_update, lemma_crc16_leading_zeros,
    lemma_crc16_linear, lemma_update_linear, low_byte, payload_crc, spec_crc_update, spec_low_byte,
    xor_bytes,
};
use crate::sixbit::{byte_at, is_sixes, spec_sixs_to_bytes};

verus! {

/// Twenty six-bit units that are all zero but the one at `position`.
pub open spec fn unit_sixes(position: int, six: u8) -> Seq<u8> {
    Seq::new(20, |p: int| if p == position { six } else { 0u8 })
}

/// What the unit at `position` adds to the CRC of the payload: the CRC of
/// the payload of the buffer in which all other units are zero.
#[verifier::opaque]
pub open spec fn unit_crc(position: int, six: u8) -> u16 {
    payload_crc(spec_sixs_to_bytes(unit_sixes(position, six)))
}

/// What the unit `six` at index `i` of the tail, which is the unit at
/// position `i + 2` of the buffer, adds to the CRC of the payload.
pub open spec fn spec_crc16_tail(i: int, six: u8) -> u16 {
    unit_crc(i + 2, six)
}

/// The low byte of what a unit of the tail adds to the CRC of the payload.
pub open spec fn spec_crc8_tail(i: int, six: u8) -> u8 {
    spec_low_byte(spec_crc16_tail(i, six))
}

/// The low byte of what the upper four bits `nibble` of the second unit of
/// the buffer add to the CRC of the payload.
pub open spec fn spec_crc8_head(nibble: u8) -> u8 {
    spec_low_byte(unit_crc(1, nibble << 2))
}

/// The register after three zero bytes.
pub open spec fn three_zero_bytes(crc: u16) -> u16 {
    spec_crc_update(spec_crc_update(spec_crc_update(crc, 0, 8), 0, 8), 0, 8)
}

/// Bytes made of zero units are zero, and exclusive or with zero changes
/// nothing.
proof fn lemma_zero_fields(x: u8, y: u16)
    by (bit_vector)
    ensures
        0u8 | (0u8 << 6) == 0,
        (0u8 >> 2) | (0u8 << 4) == 0,
        (0u8 >> 4) | (0u8 << 2) == 0,
        x | (0u8 << 6) == x,
        0u8 | (x << 6) == x << 6,
        (x >> 2) | (0u8 << 4) == x >> 2,
        (0u8 >> 2) | (x << 4) == x << 4,
        (x >> 4) | (0u8 << 2) == x >> 4,
        (0u8 >> 4) | (x << 2) == x << 2,
        x ^ 0 == x,
        0 ^ x == x,
        y ^ 0 == y,
        0 ^ y == y,
        x & 3 == 0 ==> x << 6 == 0,
        x < 64 ==> x >> 4 < 4 && x >> 2 < 16,
{
}

/// Exclusive or may be turned round.
proof fn lemma_xor_commutes(a: u16, b: u16)
    by (bit_vector)
    ensures
        a ^ b == b ^ a,
{
}

/// The first steps on a register that holds a short value only shift it.
proof fn lemma_short_load(d: u8)
    by (bit_vector)
    ensures
        d < 64 ==> crc_step(crc_step(0u16 ^ ((d as u16) << 8u16))) == 0u16 ^ ((d as u16) << 10u16),
        d < 16 ==> crc_step(crc_step(crc_step(crc_step(0u16 ^ ((d as u16) << 8u16))))) == 0u16 ^ ((
        d as u16) << 12u16),
        d < 4 ==> crc_step(
            crc_step(crc_step(crc_step(crc_step(crc_step(0u16 ^ ((d as u16) << 8u16)))))),
        ) == 0u16 ^ ((d as u16) << 14u16),
{
}

/// Feeding a short value as a byte is feeding its bits alone.
proof fn lemma_short_update(d: u8)
    ensures
        d < 64 ==> spec_crc_update(0, d, 8) == spec_crc_update(0, d, 6),
        d < 16 ==> spec_crc_update(0, d, 8) == spec_crc_update(0, d, 4),
        d < 4 ==> spec_crc_update(0, d, 8) == spec_crc_update(0, d, 2),
{
    lemma_short_load(d);
    reveal_with_fuel(crc_steps, 9);
}

/// The CRC of a sequence followed by three zero bytes.
proof fn lemma_crc16_three_zeros(front: Seq<u8>)
    ensures
        crc16(front + seq![0u8, 0u8, 0u8]) == three_zero_bytes(crc16(front)),
{
    let all = front + seq![0u8, 0u8, 0u8];
    assert(all.drop_last() == front + seq![0u8, 0u8]);
    assert(all.drop_last().drop_last() == front + seq![0u8]);
    assert(all.drop_last().drop_last().drop_last() == front);
    reveal_with_fuel(crc16, 4);
}

/// A unit four positions further on adds what it adds here, before three
/// more zero bytes.
proof fn lemma_unit_crc_shift(position: int, six: u8)
    requires
        1 <= position <= 15,
        six < 64,
        position == 1 ==> six & 3 == 0,
    ensures
        unit_crc(position, six) == three_zero_bytes(unit_crc(position + 4, six)),
{
    reveal(unit_crc);
    let here = spec_sixs_to_bytes(unit_sixes(position, six));
    let there = spec_sixs_to_bytes(unit_sixes(position + 4, six));
    lemma_zero_fields(six, 0);
    let middle = here.subrange(1, 12);
    let zeros = seq![0u8, 0u8, 0u8];
    assert(here.subrange(1, 15) == middle + zeros);
    assert forall|k: int| 3 <= k < 15 implies there[k] == here[k - 3] by {
        assert(k / 3 * 4 == (k - 3) / 3 * 4 + 4);
        assert(k % 3 == (k - 3) % 3);
    }
    assert(there.subrange(1, 15) == zeros + middle);
    lemma_crc16_three_zeros(middle);
    lemma_crc16_leading_zeros(zeros, middle);
}

/// What the units of the last three bytes add to the CRC, as the tables
/// are filled from.
proof fn lemma_unit_crc_last(six: u8)
    requires
        six < 64,
    ensures
        unit_crc(19, six) == spec_crc_update(0, six << 2, 8),
        unit_crc(18, six) == spec_crc_update(0, six >> 4, 2) ^ spec_crc_update(
            spec_crc_update(0, six << 4, 8),
            0,
            8,
        ),
        unit_crc(17, six) == spec_crc_update(spec_crc_update(0, six >> 2, 4), 0, 8)
            ^ spec_crc_update(spec_crc_update(spec_crc_update(0, six << 6, 8), 0, 8), 0, 8),
        unit_crc(16, six) == spec_crc_update(
            spec_crc_update(spec_crc_update(0, six, 6), 0, 8),
            0,
            8,
        ),
{
    reveal(unit_crc);
    lemma_zero_fields(six, 0);
    let zeros = Seq::new(11, |i: int| 0u8);
    assert(unit_crc(19, six) == spec_crc_update(0, six << 2, 8)) by {
        let b = spec_sixs_to_bytes(unit_sixes(19, six));
        let last = seq![0u8, 0u8, six << 2];
        assert(b.subrange(1, 15) == zeros + last);
        lemma_crc16_leading_zeros(zeros, last);
        lemma_crc16_last_three(0, 0, six << 2);
        lemma_update_linear(0, 0, 0, 0);
    }
    assert(unit_crc(18, six) == spec_crc_update(0, six >> 4, 2) ^ spec_crc_update(
        spec_crc_update(0, six << 4, 8),
        0,
        8,
    )) by {
        let b = spec_sixs_to_bytes(unit_sixes(18, six));
        let last = seq![0u8, six << 4, six >> 4];
        assert(b.subrange(1, 15) == zeros + last);
        lemma_crc16_leading_zeros(zeros, last);
        lemma_crc16_last_three(0, six << 4, six >> 4);
        lemma_update_linear(0, 0, 0, 0);
        let a = spec_crc_update(0, six << 4, 8);
        lemma_update_linear(a, 0, 0, six >> 4);
        lemma_zero_fields(six >> 4, a);
        lemma_short_update(six >> 4);
        lemma_xor_commutes(spec_crc_update(a, 0, 8), spec_crc_update(0, six >> 4, 8));
    }
    assert(unit_crc(17, six) == spec_crc_update(spec_crc_update(0, six >> 2, 4), 0, 8)
        ^ spec_crc_update(spec_crc_update(spec_crc_update(0, six << 6, 8), 0, 8), 0, 8)) by {
        let b = spec_sixs_to_bytes(unit_sixes(17, six));
        let last = seq![six << 6, six >> 2, 0u8];
        assert(b.subrange(1, 15) == zeros + last);
        lemma_crc16_leading_zeros(zeros, last);
        lemma_crc16_last_three(six << 6, six >> 2, 0);
        let a = spec_crc_update(0, six << 6, 8);
        let y = spec_crc_update(0, six >> 2, 8);
        lemma_update_linear(a, 0, 0, six >> 2);
        lemma_zero_fields(six >> 2, a);
        lemma_update_linear(spec_crc_update(a, 0, 8), y, 0, 0);
        lemma_short_update(six >> 2);
        lemma_xor_commutes(
            spec_crc_update(spec_crc_update(a, 0, 8), 0, 8),
            spec_crc_update(y, 0, 8),
        );
    }
    assert(unit_crc(16, six) == spec_crc_update(
        spec_crc_update(spec_crc_update(0, six, 6), 0, 8),
        0,
        8,
    )) by {
        let b = spec_sixs_to_bytes(unit_sixes(16, six));
        let last = seq![six, 0u8, 0u8];
        assert(b.subrange(1, 15) == zeros + last);
        lemma_crc16_leading_zeros(zeros, last);
        lemma_crc16_last_three(six, 0, 0);
        lemma_short_update(six);
    }
}

/// The CRC of three bytes.
proof fn lemma_crc16_last_three(b0: u8, b1: u8, b2: u8)
    ensures
        crc16(seq![b0, b1, b2]) == spec_crc_update(
            spec_crc_update(spec_crc_update(0, b0, 8), b1, 8),
            b2,
            8,
        ),
{
    let all = seq![b0, b1, b2];
    assert(all.drop_last() == seq![b0, b1]);
    assert(all.drop_last().drop_last() == seq![b0]);
    assert(all.drop_last().drop_last().drop_last() == Seq::<u8>::empty());
    reveal_with_fuel(crc16, 4);
}

/// Two facts on small shifts.
proof fn lemma_small_shifts(j: u8)
    by (bit_vector)
    requires
        j < 16,
    ensures
        j << 2 < 64,
        (j << 2) & 3 == 0,
{
}

/// Computes, for each unit of the tail and each value it can take, what it
/// adds to the CRC of the payload. The units of the last three bytes come
/// first; each earlier unit adds what the unit four positions further on
/// adds, before three more zero bytes.
pub fn crc16_table_tail() -> (table: [[u16; 64]; 18])
    ensures
        forall|i: int, j: int|
            0 <= i < 18 && 0 <= j < 64 ==> #[trigger] table[i][j] == spec_crc16_tail(i, j as u8),
{
    let mut table = [[0u16; 64]; 18];
    let mut j: u8 = 0;
    while j < 64
        invariant
            j <= 64,
            forall|i: int, k: int|
                14 <= i < 18 && 0 <= k < j ==> #[trigger] table[i][k] == spec_crc16_tail(
                    i,
                    k as u8,
                ),
        decreases 64 - j,
    {
        proof {
            lemma_unit_crc_last(j);
        }
        table[17][j as usize] = crc_update(0, j << 2, 8);
        table[16][j as usize] = crc_update(0, j >> 4, 2) ^ crc_update(
            crc_update(0, j << 4, 8),
            0,
            8,
        );
        table[15][j as usize] = crc_update(crc_update(0, j >> 2, 4), 0, 8) ^ crc_update(
            crc_update(crc_update(0, j << 6, 8), 0, 8),
            0,
            8,
        );
        table[14][j as usize] = crc_update(crc_update(crc_update(0, j, 6), 0, 8), 0, 8);
        j += 1;
    }
    let mut i: usize = 14;
    while i > 0
        invariant
            i <= 14,
            forall|r: int, k: int|
                i <= r < 18 && 0 <= k < 64 ==> #[trigger] table[r][k] == spec_crc16_tail(
                    r,
                    k as u8,
                ),
        decreases i,
    {
        i -= 1;
        let mut j: u8 = 0;
        while j < 64
            invariant
                j <= 64,
                i < 14,
                forall|r: int, k: int|
                    i < r < 18 && 0 <= k < 64 ==> #[trigger] table[r][k] == spec_crc16_tail(
                        r,
                        k as u8,
                    ),
                forall|k: int|
                    0 <= k < j ==> #[trigger] table[i as int][k] == spec_crc16_tail(
                        i as int,
                        k as u8,
                    ),
            decreases 64 - j,
        {
            proof {
                lemma_unit_crc_shift(i + 2, j);
            }
            table[i][j as usize] = crc_update(
                crc_update(crc_update(table[i + 4][j as usize], 0, 8), 0, 8),
                0,
                8,
            );
            j += 1;
        }
    }
    table
}

/// Computes, for each unit of the tail and each value it can take, the low
/// byte of what it adds to the CRC of the payload.
pub fn crc8_table_tail() -> (table: [[u8; 64]; 18])
    ensures
        forall|i: int, j: int|
            0 <= i < 18 && 0 <= j < 64 ==> #[trigger] table[i][j] == spec_crc8_tail(i, j as u8),
{
    let wide = crc16_table_tail();
    let mut table = [[0u8; 64]; 18];
    let mut i: usize = 0;
    while i < 18
        invariant
            i <= 18,
            forall|r: int, k: int|
                0 <= r < 18 && 0 <= k < 64 ==> #[trigger] wide[r][k] == spec_crc16_tail(
                    r,
                    k as u8,
                ),
            forall|r: int, k: int|
                0 <= r < i && 0 <= k < 64 ==> #[trigger] table[r][k] == spec_crc8_tail(r, k as u8),
        decreases 18 - i,
    {
        let mut j: usize = 0;
        while j < 64
            invariant
                j <= 64,
                i < 18,
                forall|r: int, k: int|
                    0 <= r < 18 && 0 <= k < 64 ==> #[trigger] wide[r][k] == spec_crc16_tail(
                        r,
                        k as u8,
                    ),
                forall|r: int, k: int|
                    0 <= r < i && 0 <= k < 64 ==> #[trigger] table[r][k] == spec_crc8_tail(
                        r,
                        k as u8,
                    ),
                forall|k: int|
                    0 <= k < j ==> #[trigger] table[i as int][k] == spec_crc8_tail(
                        i as int,
                        k as u8,
                    ),
            decreases 64 - j,
        {
            table[i][j] = low_byte(wide[i][j]);
            j += 1;
        }
        i += 1;
    }
    table
}

/// Computes, for each value of the upper four bits of the second unit of
/// the buffer, the low byte of what they add to the CRC of the payload.
pub fn crc8_table_head() -> (table: [u8; 16])
    ensures
        forall|j: int| 0 <= j < 16 ==> #[trigger] table[j] == spec_crc8_head(j as u8),
{
    let wide = crc16_table_tail();
    let mut table = [0u8; 16];
    let mut j: u8 = 0;
    while j < 16
        invariant
            j <= 16,
            forall|r: int, k: int|
                0 <= r < 18 && 0 <= k < 64 ==> #[trigger] wide[r][k] == spec_crc16_tail(
                    r,
                    k as u8,
                ),
            forall|k: int| 0 <= k < j ==> #[trigger] table[k] == spec_crc8_head(k as u8),
        decreases 16 - j,
    {
        proof {
            lemma_small_shifts(j);
            lemma_unit_crc_shift(1, j << 2);
        }
        table[j as usize] = low_byte(
            crc_update(crc_update(crc_update(wide[3][(j << 2) as usize], 0, 8), 0, 8), 0, 8),
        );
        j += 1;
    }
    table
}

/// The units `x` with those from position `m` on replaced by zero.
pub open spec fn masked_sixes(x: Seq<u8>, m: int) -> Seq<u8> {
    Seq::new(20, |p: int| if p < m { x[p] } else { 0u8 })
}

/// The low bytes of what the buffer's units add to the CRC of its payload,
/// combined up to the unit before index `i` of the tail: first what the
/// upper four bits of the second unit add, then what each unit of the tail
/// adds.
pub open spec fn crc8_sum(x: Seq<u8>, i: int) -> u8
    decreases i,
{
    if i <= 0 {
        spec_crc8_head(x[1] >> 2)
    } else {
        crc8_sum(x, i - 1) ^ spec_crc8_tail(i - 1, x[i + 1])
    }
}

/// Bytes put together from units are linear in the units.
proof fn lemma_join_linear(s0: u8, s1: u8, s2: u8, s3: u8, t0: u8, t1: u8, t2: u8, t3: u8)
    by (bit_vector)
    requires
        s0 < 64,
        s1 < 64,
        s2 < 64,
        s3 < 64,
        t0 < 64,
        t1 < 64,
        t2 < 64,
        t3 < 64,
    ensures
        (s0 ^ t0) | ((s1 ^ t1) << 6) == (s0 | (s1 << 6)) ^ (t0 | (t1 << 6)),
        ((s1 ^ t1) >> 2) | ((s2 ^ t2) << 4) == ((s1 >> 2) | (s2 << 4)) ^ ((t1 >> 2) | (t2 << 4)),
        ((s2 ^ t2) >> 4) | ((s3 ^ t3) << 2) == ((s2 >> 4) | (s3 << 2)) ^ ((t2 >> 4) | (t3 << 2)),
{
}

/// The buffer of two sets of units combined is the two buffers combined.
proof fn lemma_sixes_to_bytes_linear(x: Seq<u8>, y: Seq<u8>)
    requires
        is_sixes(x),
        is_sixes(y),
    ensures
        spec_sixs_to_bytes(xor_bytes(x, y)) == xor_bytes(
            spec_sixs_to_bytes(x),
            spec_sixs_to_bytes(y),
        ),
{
    let z = xor_bytes(x, y);
    assert forall|k: int| 0 <= k < 15 implies byte_at(z, k) == byte_at(x, k) ^ byte_at(y, k) by {
        let g = k / 3 * 4;
        lemma_join_linear(x[g], x[g + 1], x[g + 2], x[g + 3], y[g], y[g + 1], y[g + 2], y[g + 3]);
    }
}

/// The low byte of a combination is the combination of the low bytes.
proof fn lemma_low_byte_linear(a: u16, b: u16)
    by (bit_vector)
    ensures
        ((a ^ b) & 0xFF) as u8 == ((a & 0xFF) as u8) ^ ((b & 0xFF) as u8),
{
}

/// What the first two units add to the CRC of the payload.
proof fn lemma_head_crc(x: Seq<u8>)
    requires
        is_sixes(x),
    ensures
        payload_crc(spec_sixs_to_bytes(masked_sixes(x, 2))) == unit_crc(1, (x[1] >> 2) << 2),
{
    reveal(unit_crc);
    let masked = spec_sixs_to_bytes(masked_sixes(x, 2));
    let unit = spec_sixs_to_bytes(unit_sixes(1, (x[1] >> 2) << 2));
    lemma_zero_fields(x[1], 0);
    assert(((x[1] >> 2) << 2) >> 2 == x[1] >> 2) by {
        let v = x[1];
        assert(((v >> 2) << 2) >> 2 == v >> 2) by (bit_vector);
    }
    assert forall|k: int| 1 <= k < 15 implies masked[k] == unit[k] by {}
    assert(masked.subrange(1, 15) == unit.subrange(1, 15));
}

/// The low byte of the CRC of the payload, with the units from position `m`
/// on taken as zero, is the sum of what the units before `m` add.
proof fn lemma_masked_crc(x: Seq<u8>, m: int)
    requires
        is_sixes(x),
        2 <= m <= 20,
    ensures
        spec_low_byte(payload_crc(spec_sixs_to_bytes(masked_sixes(x, m)))) == crc8_sum(x, m - 2),
    decreases m,
{
    reveal(unit_crc);
    if m == 2 {
        lemma_head_crc(x);
    } else {
        lemma_masked_crc(x, m - 1);
        let before = masked_sixes(x, m - 1);
        let unit = unit_sixes(m - 1, x[m - 1]);
        let now = masked_sixes(x, m);
        lemma_zero_fields(x[m - 1], 0);
        assert forall|p: int| 0 <= p < 20 implies now[p] == before[p] ^ unit[p] by {
            lemma_zero_fields(x[p], 0);
        }
        assert(now == xor_bytes(before, unit));
        lemma_sixes_to_bytes_linear(before, unit);
        let b_before = spec_sixs_to_bytes(before);
        let b_unit = spec_sixs_to_bytes(unit);
        assert(xor_bytes(b_before, b_unit).subrange(1, 15) == xor_bytes(
            b_before.subrange(1, 15),
            b_unit.subrange(1, 15),
        ));
        lemma_crc16_linear(b_before.subrange(1, 15), b_unit.subrange(1, 15));
        lemma_low_byte_linear(payload_crc(b_before), payload_crc(b_unit));
    }
}

/// The check byte that belongs to a buffer's payload is the sum of the low
/// bytes of what its units add to the CRC.
pub proof fn lemma_check_byte_is_sum(x: Seq<u8>)
    requires
        is_sixes(x),
    ensures
        check_byte(spec_sixs_to_bytes(x)) == crc8_sum(x, 18),
{
    lemma_masked_crc(x, 20);
    assert(masked_sixes(x, 20) == x);
}

} // verus!
