//! The 16-bit CRC with polynomial `0x1021`, and the check byte of a buffer.

use vstd::prelude::*;

verus! {

/// One step of the CRC register: shift left by one bit, folding the
/// polynomial `0x1021` in when the bit shifted out was set.
pub open spec fn crc_step(crc: u16) -> u16 {
    if crc & 0x8000 != 0 {
        (crc << 1) ^ 0x1021
    } else {
        crc << 1
    }
}

/// `n` steps of the CRC register.
pub open spec fn crc_steps(crc: u16, n: nat) -> u16
    decreases n,
{
    if n == 0 {
        crc
    } else {
        crc_steps(crc_step(crc), (n - 1) as nat)
    }
}

/// The CRC register after feeding the low `n_bits` bits of `data` into `crc`.
pub open spec fn spec_crc_update(crc: u16, data: u8, n_bits: u8) -> u16 {
    crc_steps(crc ^ ((data as u16) << ((16 - n_bits) as u16)), n_bits as nat)
}

/// Feeds the low `n_bits` bits of `data` into the CRC register `crc_pre`
/// (polynomial `0x1021`, most significant bit first) and returns the new
/// register value.
pub fn crc_update(crc_pre: u16, data: u8, n_bits: u8) -> (crc: u16)
    requires
        1 <= n_bits <= 8,
    ensures
        crc == spec_crc_update(crc_pre, data, n_bits),
{
    let mut crc: u16 = crc_pre ^ ((data as u16) << ((16 - n_bits) as u16));
    let mut i: u8 = 0;
    while i < n_bits
        invariant
            i <= n_bits,
            crc_steps(crc, (n_bits - i) as nat) == spec_crc_update(crc_pre, data, n_bits),
        decreases n_bits - i,
    {
        let carry = (crc & 0x8000) != 0;
        crc = crc << 1;
        if carry {
            crc = crc ^ 0x1021;
        }
        i += 1;
    }
    crc
}

/// The CRC of a sequence of bytes: each byte in turn is fed into the
/// register, eight bits at a time, starting from 0.
pub open spec fn crc16(bytes: Seq<u8>) -> u16
    decreases bytes.len(),
{
    if bytes.len() == 0 {
        0
    } else {
        spec_crc_update(crc16(bytes.drop_last()), bytes.last(), 8)
    }
}

/// The low byte of a 16-bit value.
pub open spec fn spec_low_byte(x: u16) -> u8 {
    (x & 0xFF) as u8
}

/// The high byte of a 16-bit value.
pub open spec fn spec_high_byte(x: u16) -> u8 {
    (x >> 8) as u8
}

/// The CRC of the payload of a buffer: of all its bytes but the first.
pub open spec fn payload_crc(buffer: Seq<u8>) -> u16
    recommends
        buffer.len() == 15,
{
    crc16(buffer.subrange(1, 15))
}

/// The check byte that belongs to the payload of a buffer: the low byte of
/// the payload's CRC.
pub open spec fn check_byte(buffer: Seq<u8>) -> u8
    recommends
        buffer.len() == 15,
{
    spec_low_byte(payload_crc(buffer))
}

/// The two bytes of a 16-bit value hold all of it.
pub proof fn lemma_two_bytes(x: u16)
    by (bit_vector)
    ensures
        x & 0xFF < 256,
        x >> 8 < 256,
        ((x & 0xFF) as u8 as u16) | (((x >> 8) as u8 as u16) << 8) == x,
{
}

/// A 16-bit value made of two bytes holds them.
pub proof fn lemma_bytes_of_two(lo: u8, hi: u8)
    by (bit_vector)
    ensures
        (((lo as u16) | ((hi as u16) << 8)) & 0xFF) as u8 == lo,
        (((lo as u16) | ((hi as u16) << 8)) >> 8) as u8 == hi,
{
}

/// The low byte of `x`.
pub fn low_byte(x: u16) -> (b: u8)
    ensures
        b == spec_low_byte(x),
{
    proof {
        lemma_two_bytes(x);
    }
    (x & 0xFF) as u8
}

/// The high byte of `x`.
pub fn high_byte(x: u16) -> (b: u8)
    ensures
        b == spec_high_byte(x),
{
    proof {
        lemma_two_bytes(x);
    }
    (x >> 8) as u8
}

/// Computes the CRC of the payload of a buffer.
pub fn crc_of_payload(buffer: &[u8; 15]) -> (crc: u16)
    ensures
        crc == payload_crc(buffer@),
{
    let mut crc: u16 = 0;
    let mut i: usize = 1;
    while i < 15
        invariant
            1 <= i <= 15,
            crc == crc16(buffer@.subrange(1, i as int)),
        decreases 15 - i,
    {
        proof {
            assert(buffer@.subrange(1, i + 1).drop_last() == buffer@.subrange(1, i as int));
        }
        crc = crc_update(crc, buffer[i], 8);
        i += 1;
    }
    crc
}

/// The bytes of `a` and `b`, combined position by position with exclusive
/// or.
pub open spec fn xor_bytes(a: Seq<u8>, b: Seq<u8>) -> Seq<u8>
    recommends
        a.len() == b.len(),
{
    Seq::new(a.len(), |i: int| a[i] ^ b[i])
}

/// One step of the register is linear.
proof fn lemma_step_linear(a: u16, b: u16)
    by (bit_vector)
    ensures
        crc_step(a ^ b) == crc_step(a) ^ crc_step(b),
        crc_step(0) == 0,
{
}

/// All steps of the register are linear.
proof fn lemma_steps_linear(a: u16, b: u16, n: nat)
    ensures
        crc_steps(a ^ b, n) == crc_steps(a, n) ^ crc_steps(b, n),
        crc_steps(0, n) == 0,
    decreases n,
{
    lemma_step_linear(a, b);
    if n > 0 {
        lemma_steps_linear(crc_step(a), crc_step(b), (n - 1) as nat);
    } else {
        assert(0u16 ^ 0u16 == 0u16) by (bit_vector);
    }
}

/// Loading a byte into the register is linear.
proof fn lemma_load_linear(a: u16, b: u16, x: u8, y: u8)
    by (bit_vector)
    ensures
        (a ^ b) ^ (((x ^ y) as u16) << 8u16) == (a ^ ((x as u16) << 8u16)) ^ (b ^ ((y as u16)
            << 8u16)),
        0u16 ^ ((0u8 as u16) << 8u16) == 0u16,
{
}

/// Feeding a byte into the register is linear in the register and the byte
/// together, and feeding a zero byte into the zero register leaves it zero.
pub proof fn lemma_update_linear(a: u16, b: u16, x: u8, y: u8)
    ensures
        spec_crc_update(a ^ b, x ^ y, 8) == spec_crc_update(a, x, 8) ^ spec_crc_update(b, y, 8),
        spec_crc_update(0, 0, 8) == 0,
{
    lemma_load_linear(a, b, x, y);
    lemma_steps_linear(a ^ ((x as u16) << 8u16), b ^ ((y as u16) << 8u16), 8);
}

/// Feeding zero bits into the zero register leaves it zero, however many
/// bits are fed.
pub proof fn law_crc_of_zero(n_bits: u8)
    requires
        1 <= n_bits <= 8,
    ensures
        spec_crc_update(0, 0, n_bits) == 0,
{
    let shift = (16 - n_bits) as u16;
    assert(0u16 ^ ((0u8 as u16) << shift) == 0u16) by (bit_vector);
    lemma_steps_linear(0, 0, n_bits as nat);
}

/// The CRC is linear: that of two sequences combined is the two CRCs
/// combined.
pub proof fn lemma_crc16_linear(a: Seq<u8>, b: Seq<u8>)
    requires
        a.len() == b.len(),
    ensures
        crc16(xor_bytes(a, b)) == crc16(a) ^ crc16(b),
    decreases a.len(),
{
    if a.len() == 0 {
        assert(0u16 ^ 0u16 == 0u16) by (bit_vector);
    } else {
        lemma_crc16_linear(a.drop_last(), b.drop_last());
        assert(xor_bytes(a, b).drop_last() == xor_bytes(a.drop_last(), b.drop_last()));
        lemma_update_linear(crc16(a.drop_last()), crc16(b.drop_last()), a.last(), b.last());
    }
}

/// Zero bytes in front of a sequence do not change its CRC.
pub proof fn lemma_crc16_leading_zeros(zeros: Seq<u8>, rest: Seq<u8>)
    requires
        forall|i: int| 0 <= i < zeros.len() ==> zeros[i] == 0,
    ensures
        crc16(zeros + rest) == crc16(rest),
    decreases rest.len(),
{
    if rest.len() == 0 {
        assert(zeros + rest == zeros);
        lemma_crc16_zeros(zeros);
    } else {
        assert((zeros + rest).drop_last() == zeros + rest.drop_last());
        lemma_crc16_leading_zeros(zeros, rest.drop_last());
    }
}

/// The CRC of zero bytes is zero.
pub proof fn lemma_crc16_zeros(zeros: Seq<u8>)
    requires
        forall|i: int| 0 <= i < zeros.len() ==> zeros[i] == 0,
    ensures
        crc16(zeros) == 0,
    decreases zeros.len(),
{
    if zeros.len() > 0 {
        lemma_crc16_zeros(zeros.drop_last());
        lemma_update_linear(0, 0, 0, 0);
    }
}

} // verus!
