//! Linearity of the CRC register update, and detection of single-byte errors.
use crate::crc::{crc_byte, crc_from, crc_shift, crc_shifts};
use vstd::prelude::*;

verus! {

/// One shift step is linear over exclusive or.
proof fn lemma_shift_linear(a: u16, b: u16)
    ensures
        crc_shift(a ^ b) == crc_shift(a) ^ crc_shift(b),
{
    let x = a ^ b;
    assert((if x & 0x8000u16 != 0 {
        ((x << 1u16) ^ 0x1021u16) as u16
    } else {
        (x << 1u16) as u16
    }) == (if a & 0x8000u16 != 0 {
        ((a << 1u16) ^ 0x1021u16) as u16
    } else {
        (a << 1u16) as u16
    }) ^ (if b & 0x8000u16 != 0 {
        ((b << 1u16) ^ 0x1021u16) as u16
    } else {
        (b << 1u16) as u16
    })) by (bit_vector)
        requires
            x == a ^ b,
    ;
}

/// One shift step maps a nonzero register to a nonzero register.
proof fn lemma_shift_nonzero(c: u16)
    requires
        c != 0,
    ensures
        crc_shift(c) != 0,
{
    assert((if c & 0x8000u16 != 0 {
        ((c << 1u16) ^ 0x1021u16) as u16
    } else {
        (c << 1u16) as u16
    }) != 0) by (bit_vector)
        requires
            c != 0,
    ;
}

/// Any number of shift steps is linear over exclusive or.
proof fn lemma_shifts_linear(a: u16, b: u16, n: nat)
    ensures
        crc_shifts(a ^ b, n) == crc_shifts(a, n) ^ crc_shifts(b, n),
    decreases n,
{
    if n > 0 {
        lemma_shifts_linear(a, b, (n - 1) as nat);
        lemma_shift_linear(crc_shifts(a, (n - 1) as nat), crc_shifts(b, (n - 1) as nat));
    }
}

/// Shift steps keep a nonzero register nonzero.
proof fn lemma_shifts_nonzero(c: u16, n: nat)
    requires
        c != 0,
    ensures
        crc_shifts(c, n) != 0,
    decreases n,
{
    if n > 0 {
        lemma_shifts_nonzero(c, (n - 1) as nat);
        lemma_shift_nonzero(crc_shifts(c, (n - 1) as nat));
    }
}

/// Feeding a byte is linear in the register and the byte together.
proof fn lemma_byte_linear(c1: u16, b1: u8, c2: u16, b2: u8)
    ensures
        crc_byte(c1 ^ c2, b1 ^ b2) == crc_byte(c1, b1) ^ crc_byte(c2, b2),
{
    let x1 = c1 ^ ((b1 as u16) << 8u16);
    let x2 = c2 ^ ((b2 as u16) << 8u16);
    assert((c1 ^ c2) ^ (((b1 ^ b2) as u16) << 8u16) == x1 ^ x2) by (bit_vector)
        requires
            x1 == c1 ^ ((b1 as u16) << 8u16),
            x2 == c2 ^ ((b2 as u16) << 8u16),
    ;
    lemma_shifts_linear(x1, x2, 8);
}

// Bytewise exclusive or of two sequences of equal length.
pub open spec fn seq_xor(a: Seq<u8>, b: Seq<u8>) -> Seq<u8> {
    Seq::new(a.len(), |i: int| a[i] ^ b[i])
}

/// The register update is linear: feeding `a ^ b` from `i1 ^ i2` gives the exclusive
/// or of the two separate runs.
pub proof fn lemma_crc_linear(i1: u16, i2: u16, a: Seq<u8>, b: Seq<u8>)
    requires
        a.len() == b.len(),
    ensures
        crc_from(i1 ^ i2, seq_xor(a, b)) == crc_from(i1, a) ^ crc_from(i2, b),
    decreases a.len(),
{
    if a.len() > 0 {
        let a0 = a.drop_last();
        let b0 = b.drop_last();
        assert(seq_xor(a, b).drop_last() =~= seq_xor(a0, b0));
        lemma_crc_linear(i1, i2, a0, b0);
        lemma_byte_linear(crc_from(i1, a0), a.last(), crc_from(i2, b0), b.last());
    }
}

/// A run from a zero register over zero bytes stays zero.
proof fn lemma_crc_zeros(z: Seq<u8>)
    requires
        forall|i: int| 0 <= i < z.len() ==> z[i] == 0,
    ensures
        crc_from(0, z) == 0,
    decreases z.len(),
{
    if z.len() > 0 {
        lemma_crc_zeros(z.drop_last());
        let x: u16 = 0u16 ^ ((0u8 as u16) << 8u16);
        assert(x == 0) by (bit_vector)
            requires
                x == 0u16 ^ ((0u8 as u16) << 8u16),
        ;
        lemma_shifts_zero(8);
    }
}

/// Shift steps keep a zero register zero.
proof fn lemma_shifts_zero(n: nat)
    ensures
        crc_shifts(0, n) == 0,
    decreases n,
{
    if n > 0 {
        lemma_shifts_zero((n - 1) as nat);
        assert((if 0u16 & 0x8000u16 != 0 {
            ((0u16 << 1u16) ^ 0x1021u16) as u16
        } else {
            (0u16 << 1u16) as u16
        }) == 0) by (bit_vector);
    }
}

/// A run from a zero register over bytes that are zero but for a nonzero byte at `k`
/// ends in a nonzero register.
pub proof fn lemma_crc_single_error(e: Seq<u8>, k: int)
    requires
        0 <= k < e.len(),
        e[k] != 0,
        forall|i: int| 0 <= i < e.len() && i != k ==> e[i] == 0,
    ensures
        crc_from(0, e) != 0,
    decreases e.len(),
{
    let p = e.drop_last();
    let b: u8 = e.last();
    let c: u16 = crc_from(0, p);
    let x: u16 = c ^ ((b as u16) << 8u16);
    if e.len() - 1 > k {
        lemma_crc_single_error(p, k);
        assert(x == c) by (bit_vector)
            requires
                x == c ^ ((b as u16) << 8u16),
                b == 0,
        ;
        lemma_shifts_nonzero(x, 8);
    } else {
        lemma_crc_zeros(p);
        assert(x != 0) by (bit_vector)
            requires
                x == c ^ ((b as u16) << 8u16),
                b != 0,
                c == 0,
        ;
        lemma_shifts_nonzero(x, 8);
    }
}

} // verus!
