//! Single pixels and the bytes that pack eight of them.

use vstd::prelude::*;

verus! {

/// Value of the bit that holds the `i`-th pixel of a byte: the first pixel
/// sits in the highest bit. Zero outside a byte.
pub open spec fn bit_weight(i: int) -> nat {
    if i == 0 {
        128
    } else if i == 1 {
        64
    } else if i == 2 {
        32
    } else if i == 3 {
        16
    } else if i == 4 {
        8
    } else if i == 5 {
        4
    } else if i == 6 {
        2
    } else if i == 7 {
        1
    } else {
        0
    }
}

/// Whether the `i`-th pixel of a packed byte is on.
pub open spec fn byte_bit(byte: u8, i: int) -> bool {
    0 <= i < 8 && (byte as nat / bit_weight(i)) % 2 == 1
}

/// Sum of the bit values of the pixels among the first `n` of `bits` that are on.
pub open spec fn pack_bits(bits: Seq<bool>, n: nat) -> nat
    decreases n,
{
    if n == 0 {
        0
    } else {
        pack_bits(bits, (n - 1) as nat) + if n - 1 < bits.len() && bits[n - 1] {
            bit_weight(n - 1)
        } else {
            0
        }
    }
}

/// The byte that packs up to eight pixels, first pixel in the highest bit;
/// bits without a pixel are zero.
pub open spec fn pack_byte(bits: Seq<bool>) -> nat {
    pack_bits(bits, 8)
}

/// One if the `i`-th pixel of `bits` exists and is on, else zero.
pub open spec fn bit_value(bits: Seq<bool>, i: int) -> nat {
    if 0 <= i < bits.len() && bits[i] {
        1
    } else {
        0
    }
}

/// A packed byte written out as the sum of its eight bit values.
pub proof fn lemma_pack_byte_sum(bits: Seq<bool>)
    ensures
        pack_byte(bits) == 128 * bit_value(bits, 0) + 64 * bit_value(bits, 1) + 32 * bit_value(
            bits,
            2,
        ) + 16 * bit_value(bits, 3) + 8 * bit_value(bits, 4) + 4 * bit_value(bits, 5) + 2
            * bit_value(bits, 6) + bit_value(bits, 7),
{
    reveal_with_fuel(pack_bits, 9);
}

/// A packed byte is below 256, and reading its pixels back gives the pixels
/// that were packed, and off for the bits without a pixel.
pub proof fn lemma_pack_byte_bits(bits: Seq<bool>)
    ensures
        pack_byte(bits) < 256,
        forall|i: int|
            0 <= i < 8 ==> (#[trigger] byte_bit(pack_byte(bits) as u8, i) <==> i < bits.len()
                && bits[i]),
{
    lemma_pack_byte_sum(bits);
    let v = pack_byte(bits);
    let t0 = bit_value(bits, 0);
    let t1 = bit_value(bits, 1);
    let t2 = bit_value(bits, 2);
    let t3 = bit_value(bits, 3);
    let t4 = bit_value(bits, 4);
    let t5 = bit_value(bits, 5);
    let t6 = bit_value(bits, 6);
    let t7 = bit_value(bits, 7);
    assert(v < 256);
    assert(v / 128 == t0);
    assert(v / 64 == 2 * t0 + t1);
    assert(v / 32 == 2 * (2 * t0 + t1) + t2);
    assert(v / 16 == 2 * (4 * t0 + 2 * t1 + t2) + t3);
    assert(v / 8 == 2 * (8 * t0 + 4 * t1 + 2 * t2 + t3) + t4);
    assert(v / 4 == 2 * (16 * t0 + 8 * t1 + 4 * t2 + 2 * t3 + t4) + t5);
    assert(v / 2 == 2 * (32 * t0 + 16 * t1 + 8 * t2 + 4 * t3 + 2 * t4 + t5) + t6);
    assert(v / 1 == 2 * (64 * t0 + 32 * t1 + 16 * t2 + 8 * t3 + 4 * t4 + 2 * t5 + t6) + t7);
    assert forall|i: int| 0 <= i < 8 implies (#[trigger] byte_bit(v as u8, i) <==> i < bits.len()
        && bits[i]) by {
        assert(byte_bit(v as u8, i) <==> bit_value(bits, i) == 1);
    }
}

/// Packs up to eight pixels into one byte, the first pixel in the highest bit.
pub fn to_bw_data_byte(data: &[bool]) -> (byte: u8)
    requires
        data@.len() <= 8,
    ensures
        byte == pack_byte(data@),
{
    let mut byte: u8 = 0;
    let mut weight: u8 = 128;
    let mut i: usize = 0;
    while i < data.len()
        invariant
            i <= data@.len() <= 8,
            weight == bit_weight(i as int),
            byte == pack_bits(data@, i as nat),
            byte + 2 * weight <= 256,
        decreases data@.len() - i,
    {
        if data[i] {
            byte = byte + weight;
        }
        weight = weight / 2;
        i = i + 1;
    }
    proof {
        reveal_with_fuel(pack_bits, 9);
    }
    byte
}

/// Reading single pixels out of a packed byte.
pub trait BWByteData {
    /// The packed byte that the pixels are read from. A verified holder of
    /// a byte says what it is.
    open spec fn packed_byte(&self) -> u8 {
        arbitrary()
    }

    /// The first `len` pixels of the byte, in order.
    fn bw_byte_iter(&self, len: usize) -> (bits: Vec<bool>)
        requires
            len <= 8,
        ensures
            bits@.len() == len,
            forall|i: int| 0 <= i < len ==> bits@[i] == byte_bit(self.packed_byte(), i),
    ;
}

impl BWByteData for u8 {
    open spec fn packed_byte(&self) -> u8 {
        *self
    }

    fn bw_byte_iter(&self, len: usize) -> (bits: Vec<bool>) {
        let mut bits: Vec<bool> = Vec::new();
        let mut weight: u8 = 128;
        let mut i: usize = 0;
        while i < len
            invariant
                i <= len <= 8,
                weight == bit_weight(i as int),
                bits@.len() == i,
                forall|k: int| 0 <= k < i ==> bits@[k] == byte_bit(*self, k),
            decreases len - i,
        {
            bits.push((*self / weight) % 2 == 1);
            weight = weight / 2;
            i = i + 1;
        }
        bits
    }
}

} // verus!
