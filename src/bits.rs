//! Bit-level model of a payload: the order in which its bits are visited, the
//! cursor that walks them, and how extracted bits are packed back into bytes.
use vstd::prelude::*;

verus! {

/// Bit `k` of a payload (0 or 1), counting little-endian within each byte:
/// bits 0..8 are bits 0..8 of byte 0, bits 8..16 those of byte 1, and so on.
pub open spec fn payload_bit(data: Seq<u8>, k: int) -> u8 {
    (data[k / 8] >> ((k % 8) as u8)) & 1
}

/// The least-significant bit of a channel byte.
pub open spec fn lsb(x: u8) -> u8 {
    x & 1
}

/// `x` with its least-significant bit replaced by `b` (0 or 1).
pub open spec fn with_lsb(x: u8, b: u8) -> u8 {
    (x & 0xfe) | b
}

/// The low `b` bits of `x` (all of `x` from 8 bits on).
pub open spec fn low_bits(x: u8, b: u8) -> u8 {
    if b >= 8 {
        x
    } else {
        x & (((1u8 << b) - 1) as u8)
    }
}

/// A buffer of `len` zero bytes into which the first `k` entries of `bits`
/// (each 0 or 1) have been OR-ed, little-endian within each byte.
pub open spec fn packed(bits: Seq<u8>, k: nat, len: nat) -> Seq<u8>
    decreases k,
{
    if k == 0 {
        Seq::new(len, |_i: int| 0u8)
    } else {
        let prev = packed(bits, (k - 1) as nat, len);
        let j = (k - 1) / 8;
        prev.update(j, prev[j] | (bits[k - 1] << (((k - 1) % 8) as u8)))
    }
}

/// Number of bytes that hold `n` bits, plus one spare byte at the end.
pub open spec fn extracted_len(n: nat) -> nat {
    if n % 8 == 0 {
        n / 8 + 1
    } else {
        n / 8 + 2
    }
}

pub proof fn lemma_with_lsb(x: u8, b: u8)
    requires
        b < 2,
    ensures
        lsb(with_lsb(x, b)) == b,
        with_lsb(x, b) & 0xfe == x & 0xfe,
        with_lsb(x, lsb(x)) == x,
{
    assert(((x & 0xfe) | b) & 1 == b) by (bit_vector)
        requires
            b < 2,
    ;
    assert(((x & 0xfe) | b) & 0xfe == x & 0xfe) by (bit_vector)
        requires
            b < 2,
    ;
    assert((x & 0xfe) | (x & 1) == x) by (bit_vector);
}

pub proof fn lemma_payload_bit_is_bit(data: Seq<u8>, k: int)
    requires
        0 <= k < 8 * data.len(),
    ensures
        payload_bit(data, k) < 2,
{
    let x = data[k / 8];
    let s = (k % 8) as u8;
    assert((x >> s) & 1 < 2) by (bit_vector);
}

proof fn lemma_low_bits_step(x: u8, b: u8)
    requires
        b < 8,
    ensures
        low_bits(x, b) | (((x >> b) & 1) << b) == low_bits(x, (b + 1) as u8),
{
    if b < 7 {
        assert((x & (((1u8 << b) - 1) as u8)) | (((x >> b) & 1) << b) == x & (((1u8 << ((b
            + 1) as u8)) - 1) as u8)) by (bit_vector)
            requires
                b < 7,
        ;
    } else {
        assert((x & (((1u8 << b) - 1) as u8)) | (((x >> b) & 1) << b) == x) by (bit_vector)
            requires
                b == 7,
        ;
    }
}

/// Packing the first `k` bits of a payload's bit stream rebuilds the payload's
/// bytes up to bit `k`: whole bytes before it, the low bits of the byte it falls
/// in, and zeros after it.
pub proof fn lemma_packed_prefix(data: Seq<u8>, bits: Seq<u8>, k: nat, len: nat)
    requires
        k <= 8 * data.len(),
        data.len() <= len,
        k <= bits.len(),
        forall|i: int| 0 <= i < k ==> bits[i] == payload_bit(data, i),
    ensures
        packed(bits, k, len).len() == len,
        forall|j: int|
            0 <= j < len ==> #[trigger] packed(bits, k, len)[j] == (if 8 * j >= k {
                0u8
            } else if 8 * j + 8 <= k {
                data[j]
            } else {
                low_bits(data[j], (k - 8 * j) as u8)
            }),
    decreases k,
{
    if k > 0 {
        let k1 = (k - 1) as nat;
        lemma_packed_prefix(data, bits, k1, len);
        let prev = packed(bits, k1, len);
        let j: int = (k1 / 8) as int;
        let b = (k1 % 8) as u8;
        assert(k1 == 8 * j + b);
        let x = data[j];
        assert(prev[j] == low_bits(x, b)) by {
            if b == 0 {
                assert(low_bits(x, 0) == 0) by {
                    assert(x & (((1u8 << 0u8) - 1) as u8) == 0) by (bit_vector);
                }
            }
        }
        assert(bits[k1 as int] == (x >> b) & 1);
        lemma_low_bits_step(x, b);
        if b == 7 {
            assert(low_bits(x, 8) == x);
        }
        assert forall|i: int| 0 <= i < len implies #[trigger] packed(bits, k, len)[i] == (if 8 * i
            >= k {
            0u8
        } else if 8 * i + 8 <= k {
            data[i]
        } else {
            low_bits(data[i], (k - 8 * i) as u8)
        }) by {
            if i != j {
                assert(packed(bits, k, len)[i] == prev[i]);
            }
        }
    }
}

/// Packing a payload's whole bit stream gives back the payload, followed by
/// zeros up to the buffer's length.
pub proof fn lemma_packed_payload(data: Seq<u8>, bits: Seq<u8>, len: nat)
    requires
        data.len() <= len,
        8 * data.len() <= bits.len(),
        forall|i: int| 0 <= i < 8 * data.len() ==> bits[i] == payload_bit(data, i),
    ensures
        packed(bits, 8 * data.len(), len) == data + Seq::new(
            (len - data.len()) as nat,
            |_i: int| 0u8,
        ),
{
    let k = 8 * data.len();
    lemma_packed_prefix(data, bits, k, len);
    let rhs = data + Seq::new((len - data.len()) as nat, |_i: int| 0u8);
    assert forall|j: int| 0 <= j < len implies #[trigger] packed(bits, k, len)[j] == rhs[j] by {
        if j < data.len() {
            assert(8 * j + 8 <= k);
        }
    }
    assert(packed(bits, k, len) =~= rhs);
}

/// Advances a (bit, byte) cursor by one bit: the bit index wraps from 7 to 0 and
/// carries into the byte index.
pub fn increment_bit_and_byte_counters(bit: &mut u32, byte: &mut u32)
    requires
        *old(bit) < 8,
        *old(byte) < u32::MAX,
    ensures
        *final(bit) < 8,
        8 * *final(byte) + *final(bit) == 8 * *old(byte) + *old(bit) + 1,
{
    *bit += 1;
    if *bit == 8 {
        *byte += 1;
        *bit = 0;
    }
}

/// The engine's position in a payload's bit stream.
#[derive(Clone, Copy, Debug, PartialEq, Eq, Structural)]
pub struct PayloadCursor {
    pub byte_index: usize,
    pub bit_index: usize,
}

impl PayloadCursor {
    /// Index of the next payload bit in the bit stream.
    pub open spec fn position(&self) -> int {
        8 * self.byte_index + self.bit_index
    }

    pub open spec fn wf(&self) -> bool {
        self.bit_index < 8
    }

    /// A cursor at the first bit of the payload.
    pub fn start() -> (c: PayloadCursor)
        ensures
            c.wf(),
            c.position() == 0,
    {
        PayloadCursor { byte_index: 0, bit_index: 0 }
    }

    /// The payload bit under the cursor.
    pub fn current_bit(&self, data: &[u8]) -> (b: u8)
        requires
            self.wf(),
            self.position() < 8 * data@.len(),
        ensures
            b == payload_bit(data@, self.position()),
            b < 2,
    {
        proof {
            lemma_payload_bit_is_bit(data@, self.position());
        }
        (data[self.byte_index] >> (self.bit_index as u8)) & 1
    }

    /// Moves the cursor on by one bit; it never revisits a bit.
    pub fn advance(&mut self)
        requires
            old(self).wf(),
            old(self).byte_index < usize::MAX,
        ensures
            final(self).wf(),
            final(self).position() == old(self).position() + 1,
    {
        self.bit_index += 1;
        if self.bit_index == 8 {
            self.byte_index += 1;
            self.bit_index = 0;
        }
    }
}

} // verus!
