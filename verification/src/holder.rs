//! The storage codec: encoding a value into the byte pattern of its layout
//! kind and reading it back.
//!
//! A value is stored little-endian as the two's-complement pattern of the
//! selected native kind, in a fixed eight-byte buffer of which only the
//! kind's width is meaningful.  For the `Trivial` kind nothing is stored.

use vstd::arithmetic::div_mod::{
    lemma_basic_div, lemma_div_basics_2, lemma_div_denominator, lemma_fundamental_div_mod,
};
use vstd::prelude::*;

use crate::value_check::{kind_max, kind_min, kind_width, LayoutKind};

verus! {

/// Powers of 256, the weight of each byte position.
pub open spec fn p256(j: nat) -> int
    decreases j,
{
    if j == 0 {
        1
    } else {
        256 * p256((j - 1) as nat)
    }
}

/// Unsigned little-endian value of the bytes at positions `i .. w`.
pub open spec fn le_digits(bytes: Seq<u8>, i: nat, w: nat) -> int
    decreases w - i,
{
    if i >= w || w > bytes.len() {
        0
    } else {
        bytes[i as int] + 256 * le_digits(bytes, i + 1, w)
    }
}

/// The value a byte pattern denotes under a layout kind: the little-endian
/// unsigned value of the kind's width in bytes, shifted down by the kind's
/// span when it exceeds the kind's maximum (two's complement).
pub open spec fn decode_spec(k: LayoutKind, bytes: Seq<u8>) -> int {
    let u = le_digits(bytes, 0, kind_width(k));
    if u > kind_max(k) {
        u - (kind_max(k) - kind_min(k) + 1)
    } else {
        u
    }
}

/// The stored byte pattern of a [`Ranged`](crate::Ranged) value.
#[derive(Clone, Copy, Debug, Hash)]
pub struct RangedRepr {
    bytes: [u8; 8],
}

impl View for RangedRepr {
    type V = Seq<u8>;

    closed spec fn view(&self) -> Seq<u8> {
        self.bytes@
    }
}

proof fn lemma_p256_pos(j: nat)
    ensures
        p256(j) >= 1,
    decreases j,
{
    if j > 0 {
        lemma_p256_pos((j - 1) as nat);
    }
}

/// When every byte at positions `i .. w` is the corresponding base-256
/// digit of `m`, the little-endian reading of those bytes is `m` shifted
/// down by `i` digits.
proof fn lemma_le_digits_reconstruct(bytes: Seq<u8>, m: int, i: nat, w: nat)
    requires
        i <= w <= bytes.len(),
        0 <= m < p256(w),
        forall|j: int| i <= j < w ==> bytes[j] == (m / p256(j as nat)) % 256,
    ensures
        le_digits(bytes, i, w) == m / p256(i),
    decreases w - i,
{
    lemma_p256_pos(i);
    lemma_p256_pos(w);
    if i >= w {
        lemma_basic_div(m, p256(w));
    } else {
        lemma_le_digits_reconstruct(bytes, m, i + 1, w);
        let q = m / p256(i);
        assert(p256(i + 1) == 256 * p256(i));
        lemma_div_denominator(m, p256(i), 256);
        assert(m / p256(i + 1) == q / 256);
        lemma_fundamental_div_mod(q, 256);
        assert(bytes[i as int] == q % 256);
        assert(le_digits(bytes, i, w) == q % 256 + 256 * (q / 256));
    }
}

impl RangedRepr {
    /// A zeroed byte pattern, the representation of a `Trivial` value.
    pub fn new() -> (r: Self)
        ensures
            forall|j: int| 0 <= j < 8 ==> r@[j] == 0,
    {
        RangedRepr { bytes: [0, 0, 0, 0, 0, 0, 0, 0] }
    }

    /// Encode `v` as the little-endian two's-complement pattern of kind
    /// `k`.  Reading the pattern back under the same kind yields `v` again.
    pub fn from_irang(k: LayoutKind, v: i128) -> (r: Self)
        requires
            !(k is Trivial) ==> kind_min(k) <= v as int <= kind_max(k),
        ensures
            !(k is Trivial) ==> decode_spec(k, r@) == v as int,
    {
        let m: u64 = match k {
            LayoutKind::Trivial => 0,
            LayoutKind::U8 | LayoutKind::U16 | LayoutKind::U32 | LayoutKind::U64 => v as u64,
            LayoutKind::I8 => if v < 0 { (v + 0x100) as u64 } else { v as u64 },
            LayoutKind::I16 => if v < 0 { (v + 0x1_0000) as u64 } else { v as u64 },
            LayoutKind::I32 => if v < 0 { (v + 0x1_0000_0000) as u64 } else { v as u64 },
            LayoutKind::I64 => if v < 0 { (v + 0x1_0000_0000_0000_0000) as u64 } else { v as u64 },
        };
        let b0 = (m % 256) as u8;
        let m1 = m / 256;
        let b1 = (m1 % 256) as u8;
        let m2 = m1 / 256;
        let b2 = (m2 % 256) as u8;
        let m3 = m2 / 256;
        let b3 = (m3 % 256) as u8;
        let m4 = m3 / 256;
        let b4 = (m4 % 256) as u8;
        let m5 = m4 / 256;
        let b5 = (m5 % 256) as u8;
        let m6 = m5 / 256;
        let b6 = (m6 % 256) as u8;
        let m7 = m6 / 256;
        let b7 = (m7 % 256) as u8;
        let r = RangedRepr { bytes: [b0, b1, b2, b3, b4, b5, b6, b7] };
        proof {
            if !(k is Trivial) {
                reveal_with_fuel(p256, 9);
                let mi = m as int;
                lemma_div_basics_2(mi);
                lemma_div_denominator(mi, p256(1), 256);
                lemma_div_denominator(mi, p256(2), 256);
                lemma_div_denominator(mi, p256(3), 256);
                lemma_div_denominator(mi, p256(4), 256);
                lemma_div_denominator(mi, p256(5), 256);
                lemma_div_denominator(mi, p256(6), 256);
                assert(m1 as int == mi / p256(1));
                assert(m2 as int == mi / p256(2));
                assert(m3 as int == mi / p256(3));
                assert(m4 as int == mi / p256(4));
                assert(m5 as int == mi / p256(5));
                assert(m6 as int == mi / p256(6));
                assert(m7 as int == mi / p256(7));
                let w = kind_width(k);
                assert(mi < p256(w));
                lemma_le_digits_reconstruct(r@, mi, 0, w);
                assert(le_digits(r@, 0, w) == mi);
            }
        }
        r
    }

    /// Decode the byte pattern under kind `k`.
    pub fn to_irang(self, k: LayoutKind) -> (r: i128)
        ensures
            r as int == decode_spec(k, self@),
    {
        let b = &self.bytes;
        let u: u64 = match k {
            LayoutKind::Trivial => 0,
            LayoutKind::I8 | LayoutKind::U8 => b[0] as u64,
            LayoutKind::I16 | LayoutKind::U16 => b[0] as u64 + (b[1] as u64) * 0x100,
            LayoutKind::I32 | LayoutKind::U32 => b[0] as u64 + (b[1] as u64) * 0x100 + (b[2]
                as u64) * 0x1_0000 + (b[3] as u64) * 0x100_0000,
            LayoutKind::I64 | LayoutKind::U64 => b[0] as u64 + (b[1] as u64) * 0x100 + (b[2]
                as u64) * 0x1_0000 + (b[3] as u64) * 0x100_0000 + (b[4] as u64) * 0x1_0000_0000 + (
            b[5] as u64) * 0x100_0000_0000 + (b[6] as u64) * 0x1_0000_0000_0000 + (b[7] as u64)
                * 0x100_0000_0000_0000,
        };
        proof {
            reveal_with_fuel(le_digits, 9);
            assert(u as int == le_digits(self@, 0, kind_width(k)));
        }
        match k {
            LayoutKind::Trivial
            | LayoutKind::U8
            | LayoutKind::U16
            | LayoutKind::U32
            | LayoutKind::U64 => u as i128,
            LayoutKind::I8 => if u >= 0x80 {
                u as i128 - 0x100
            } else {
                u as i128
            },
            LayoutKind::I16 => if u >= 0x8000 {
                u as i128 - 0x1_0000
            } else {
                u as i128
            },
            LayoutKind::I32 => if u >= 0x8000_0000 {
                u as i128 - 0x1_0000_0000
            } else {
                u as i128
            },
            LayoutKind::I64 => if u >= 0x8000_0000_0000_0000 {
                u as i128 - 0x1_0000_0000_0000_0000
            } else {
                u as i128
            },
        }
    }
}

} // verus!
