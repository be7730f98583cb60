//! A fixed-width set of packed bits.
//!
//! `BitSet<BYTES>` holds `8 * BYTES` bits in little-endian byte order:
//! bit `i` lives in byte `i / 8` at position `i % 8`.

use vstd::prelude::*;

verus! {

broadcast use vstd::array::group_array_axioms;

/// Holds packed bits and manages access to them.
///
/// Conversions from unsigned integers index lowest to highest bit.
#[derive(Debug, Clone, Copy, PartialEq, Eq)]
pub struct BitSet<const BYTES: usize> {
    /// The bits, packed in little-endian byte order.
    pub bytes: [u8; BYTES],
}

impl<const BYTES: usize> BitSet<BYTES> {
    /// The value of bit `i`.
    pub open spec fn spec_bit(self, i: int) -> bool {
        (self.bytes@[i / 8] >> ((i % 8) as u8)) & 1 == 1
    }

    /// Creates a new bit set from little-endian bytes.
    pub fn new(bytes: [u8; BYTES]) -> (r: Self)
        ensures
            r.bytes@ == bytes@,
    {
        Self { bytes }
    }

    /// The bit position and byte position of bit `index`.
    pub fn split_index(index: usize) -> (r: (usize, usize))
        requires
            index < 8 * BYTES,
        ensures
            r.0 == index % 8,
            r.1 == index / 8,
    {
        (index % 8, index / 8)
    }

    /// Checks whether `index` addresses a bit of this `BitSet`.
    pub fn is_in_bounds(index: usize) -> (r: bool)
        ensures
            r == (index < 8 * BYTES),
    {
        index / 8 < BYTES
    }

    /// The current value of the bit at position `index`.
    pub fn get(&self, index: usize) -> (r: bool)
        requires
            index < 8 * BYTES,
        ensures
            r == self.spec_bit(index as int),
    {
        let (bit_index, byte_index) = Self::split_index(index);
        let b = self.bytes[byte_index];
        proof {
            lemma_u8_mask_test(b, (index % 8) as u8);
        }
        b & (1u8 << (bit_index as u8)) != 0
    }

    /// Flips the bit at position `index`.
    pub fn flip(&mut self, index: usize)
        requires
            index < 8 * BYTES,
        ensures
            final(self).spec_bit(index as int) == !old(self).spec_bit(index as int),
            forall|j: int|
                0 <= j < 8 * BYTES && j != index ==> final(self).spec_bit(j) == old(
                    self,
                ).spec_bit(j),
    {
        let (bit_index, byte_index) = Self::split_index(index);
        let b = self.bytes[byte_index];
        self.bytes[byte_index] = b ^ (1u8 << (bit_index as u8));
        proof {
            assert forall|j: int| 0 <= j < 8 * BYTES implies final(self).spec_bit(j) == (if j
                == index {
                !old(self).spec_bit(j)
            } else {
                old(self).spec_bit(j)
            }) by {
                if j / 8 == index as int / 8 {
                    lemma_u8_xor_bit(b, (index % 8) as u8, (j % 8) as u8);
                }
            }
        }
    }

    /// Sets the bit at position `index` to `value`.
    pub fn set(&mut self, index: usize, value: bool)
        requires
            index < 8 * BYTES,
        ensures
            final(self).spec_bit(index as int) == value,
            forall|j: int|
                0 <= j < 8 * BYTES && j != index ==> final(self).spec_bit(j) == old(
                    self,
                ).spec_bit(j),
    {
        let (bit_index, byte_index) = Self::split_index(index);
        let b = self.bytes[byte_index];
        let nb = if value {
            b | (1u8 << (bit_index as u8))
        } else {
            b & !(1u8 << (bit_index as u8))
        };
        self.bytes[byte_index] = nb;
        proof {
            assert forall|j: int| 0 <= j < 8 * BYTES implies final(self).spec_bit(j) == (if j
                == index {
                value
            } else {
                old(self).spec_bit(j)
            }) by {
                if j / 8 == index as int / 8 {
                    lemma_u8_set_bit(b, (index % 8) as u8, (j % 8) as u8, value);
                }
            }
        }
    }

    /// Counts the set bits.
    pub fn count(&self) -> (r: usize)
        requires
            8 * BYTES <= usize::MAX,
        ensures
            r == count_bytes(self.bytes@),
    {
        let mut count: usize = 0;
        let mut i: usize = 0;
        while i < BYTES
            invariant
                i <= BYTES,
                8 * BYTES <= usize::MAX,
                count == count_bytes(self.bytes@.take(i as int)),
                count <= 8 * i,
            decreases BYTES - i,
        {
            let ones = byte_ones(self.bytes[i]);
            proof {
                lemma_count_bytes_push(self.bytes@.take(i as int), self.bytes@[i as int]);
                assert(self.bytes@.take(i + 1) =~= self.bytes@.take(i as int).push(
                    self.bytes@[i as int],
                ));
            }
            count = count + ones as usize;
            i += 1;
        }
        proof {
            assert(self.bytes@.take(BYTES as int) =~= self.bytes@);
        }
        count
    }

    /// Whether every bit is set.
    pub fn all(&self) -> (r: bool)
        ensures
            r == forall|j: int| 0 <= j < BYTES ==> self.bytes@[j] == 0xFFu8,
    {
        let mut i: usize = 0;
        while i < BYTES
            invariant
                i <= BYTES,
                forall|j: int| 0 <= j < i ==> self.bytes@[j] == 0xFFu8,
            decreases BYTES - i,
        {
            if self.bytes[i] != 0xFF {
                return false;
            }
            i += 1;
        }
        true
    }

    /// Whether any bit is set.
    pub fn any(&self) -> (r: bool)
        ensures
            r == exists|j: int| 0 <= j < BYTES && self.bytes@[j] != 0u8,
    {
        let mut i: usize = 0;
        while i < BYTES
            invariant
                i <= BYTES,
                forall|j: int| 0 <= j < i ==> self.bytes@[j] == 0u8,
            decreases BYTES - i,
        {
            if self.bytes[i] > 0 {
                return true;
            }
            i += 1;
        }
        false
    }

    /// Whether no bit is set.
    pub fn none(&self) -> (r: bool)
        ensures
            r == !exists|j: int| 0 <= j < BYTES && self.bytes@[j] != 0u8,
    {
        !self.any()
    }

    /// Sets every bit to false.
    pub fn clear(&mut self)
        ensures
            forall|j: int| 0 <= j < BYTES ==> final(self).bytes@[j] == 0u8,
    {
        self.bytes = [0; BYTES];
    }

    /// The union of `self` and `other`: a bit is set if it is set in
    /// either.
    pub fn union(&self, other: &Self) -> (r: Self)
        ensures
            forall|i: int|
                0 <= i < 8 * BYTES ==> r.spec_bit(i) == (self.spec_bit(i) || other.spec_bit(i)),
    {
        let mut data = self.bytes;
        let mut i: usize = 0;
        while i < BYTES
            invariant
                i <= BYTES,
                data@.len() == BYTES,
                forall|j: int| 0 <= j < i ==> data@[j] == (self.bytes@[j] | other.bytes@[j]),
                forall|j: int| i <= j < BYTES ==> data@[j] == self.bytes@[j],
            decreases BYTES - i,
        {
            let v = data[i] | other.bytes[i];
            data[i] = v;
            i += 1;
        }
        let r = Self::new(data);
        proof {
            assert forall|i: int| 0 <= i < 8 * BYTES implies r.spec_bit(i) == (self.spec_bit(i)
                || other.spec_bit(i)) by {
                lemma_u8_or_bit(self.bytes@[i / 8], other.bytes@[i / 8], (i % 8) as u8);
            }
        }
        r
    }

    /// The intersection of `self` and `other`: a bit is set if it is set
    /// in both.
    pub fn intersection(&self, other: &Self) -> (r: Self)
        ensures
            forall|i: int|
                0 <= i < 8 * BYTES ==> r.spec_bit(i) == (self.spec_bit(i) && other.spec_bit(i)),
    {
        let mut data = self.bytes;
        let mut i: usize = 0;
        while i < BYTES
            invariant
                i <= BYTES,
                data@.len() == BYTES,
                forall|j: int| 0 <= j < i ==> data@[j] == (self.bytes@[j] & other.bytes@[j]),
                forall|j: int| i <= j < BYTES ==> data@[j] == self.bytes@[j],
            decreases BYTES - i,
        {
            let v = data[i] & other.bytes[i];
            data[i] = v;
            i += 1;
        }
        let r = Self::new(data);
        proof {
            assert forall|i: int| 0 <= i < 8 * BYTES implies r.spec_bit(i) == (self.spec_bit(i)
                && other.spec_bit(i)) by {
                lemma_u8_and_bit(self.bytes@[i / 8], other.bytes@[i / 8], (i % 8) as u8);
            }
        }
        r
    }

    /// The complement of `self`: every bit flipped.
    pub fn not(&self) -> (r: Self)
        ensures
            forall|i: int| 0 <= i < 8 * BYTES ==> r.spec_bit(i) == !self.spec_bit(i),
    {
        let mut data = self.bytes;
        let mut i: usize = 0;
        while i < BYTES
            invariant
                i <= BYTES,
                data@.len() == BYTES,
                forall|j: int| 0 <= j < i ==> data@[j] == !self.bytes@[j],
                forall|j: int| i <= j < BYTES ==> data@[j] == self.bytes@[j],
            decreases BYTES - i,
        {
            let v = !data[i];
            data[i] = v;
            i += 1;
        }
        let r = Self::new(data);
        proof {
            assert forall|i: int| 0 <= i < 8 * BYTES implies r.spec_bit(i) == !self.spec_bit(
                i,
            ) by {
                lemma_u8_not_bit(self.bytes@[i / 8], (i % 8) as u8);
            }
        }
        r
    }

    /// `self` shifted left by `rhs` bits: bit `i` of the result is bit
    /// `i - rhs` of `self`, and the lowest `rhs` bits are clear.
    pub fn shl(self, rhs: usize) -> (r: Self)
        requires
            8 * BYTES <= usize::MAX,
        ensures
            forall|i: int|
                0 <= i < 8 * BYTES ==> r.spec_bit(i) == (i >= rhs && self.spec_bit(i - rhs)),
    {
        let mut out = Self::new([0; BYTES]);
        proof {
            assert forall|i: int| 0 <= i < 8 * BYTES implies !out.spec_bit(i) by {
                lemma_u8_zero_bit((i % 8) as u8);
            }
        }
        let mut i: usize = 0;
        while i < BYTES * 8
            invariant
                i <= 8 * BYTES,
                8 * BYTES <= usize::MAX,
                forall|j: int| 0 <= j < i ==> out.spec_bit(j) == (j >= rhs && self.spec_bit(
                    j - rhs,
                )),
                forall|j: int| i <= j < 8 * BYTES ==> !out.spec_bit(j),
            decreases 8 * BYTES - i,
        {
            if i >= rhs {
                let bit = self.get(i - rhs);
                out.set(i, bit);
            }
            i += 1;
        }
        out
    }
}

impl<const BYTES: usize> Default for BitSet<BYTES> {
    /// The empty bit set.
    fn default() -> (r: Self)
        ensures
            forall|j: int| 0 <= j < BYTES ==> r.bytes@[j] == 0u8,
    {
        Self::new([0; BYTES])
    }
}

/// The number of set bits among the lowest `n` bits of `b`.
pub open spec fn count_ones_upto(b: u8, n: int) -> int
    decreases n,
{
    if n <= 0 {
        0
    } else {
        count_ones_upto(b, n - 1) + (if (b >> ((n - 1) as u8)) & 1 == 1 {
            1int
        } else {
            0int
        })
    }
}

/// The number of set bits in each byte of `s`, summed.
pub open spec fn count_bytes(s: Seq<u8>) -> int
    decreases s.len(),
{
    if s.len() == 0 {
        0
    } else {
        count_bytes(s.drop_last()) + count_ones_upto(s.last(), 8)
    }
}

/// Counting distributes over appending one byte.
proof fn lemma_count_bytes_push(s: Seq<u8>, b: u8)
    ensures
        count_bytes(s.push(b)) == count_bytes(s) + count_ones_upto(b, 8),
{
    assert(s.push(b).drop_last() =~= s);
    assert(s.push(b).last() == b);
}

/// The sum of set bits in a byte is at most eight.
proof fn lemma_count_ones_le(b: u8, n: int)
    ensures
        0 <= count_ones_upto(b, n) <= if n >= 0 {
            n
        } else {
            0
        },
    decreases n,
{
    if n > 0 {
        lemma_count_ones_le(b, n - 1);
    }
}

/// Counts the set bits of one byte.
fn byte_ones(b: u8) -> (r: u8)
    ensures
        r == count_ones_upto(b, 8),
        r <= 8,
{
    let mut r: u8 = 0;
    let mut k: u8 = 0;
    while k < 8
        invariant
            k <= 8,
            r == count_ones_upto(b, k as int),
            r <= k,
        decreases 8 - k,
    {
        proof {
            lemma_count_ones_le(b, k as int);
            assert((b >> k) & 1 == 1 || (b >> k) & 1 == 0) by (bit_vector);
        }
        r = r + ((b >> k) & 1);
        k += 1;
    }
    r
}

/// A bit test through a mask equals a shift-and-test.
proof fn lemma_u8_mask_test(b: u8, k: u8)
    by (bit_vector)
    requires
        k < 8,
    ensures
        (b & (1u8 << k) != 0) == ((b >> k) & 1 == 1),
{
}

/// Exclusive-or with a single-bit mask flips that bit and keeps the rest.
proof fn lemma_u8_xor_bit(b: u8, k: u8, j: u8)
    by (bit_vector)
    requires
        k < 8,
        j < 8,
    ensures
        (((b ^ (1u8 << k)) >> j) & 1 == 1) == (if j == k {
            !((b >> j) & 1 == 1)
        } else {
            (b >> j) & 1 == 1
        }),
{
}

/// Or-with-mask sets the bit; and-with-complement clears it; either keeps
/// the others.
proof fn lemma_u8_set_bit(b: u8, k: u8, j: u8, value: bool)
    by (bit_vector)
    requires
        k < 8,
        j < 8,
    ensures
        (((if value {
            b | (1u8 << k)
        } else {
            b & !(1u8 << k)
        }) >> j) & 1 == 1) == (if j == k {
            value
        } else {
            (b >> j) & 1 == 1
        }),
{
}

/// A bit of an or is the or of the bits.
proof fn lemma_u8_or_bit(a: u8, b: u8, k: u8)
    by (bit_vector)
    requires
        k < 8,
    ensures
        (((a | b) >> k) & 1 == 1) == ((a >> k) & 1 == 1 || (b >> k) & 1 == 1),
{
}

/// A bit of an and is the and of the bits.
proof fn lemma_u8_and_bit(a: u8, b: u8, k: u8)
    by (bit_vector)
    requires
        k < 8,
    ensures
        (((a & b) >> k) & 1 == 1) == ((a >> k) & 1 == 1 && (b >> k) & 1 == 1),
{
}

/// A bit of a complement is the negated bit.
proof fn lemma_u8_not_bit(b: u8, k: u8)
    by (bit_vector)
    requires
        k < 8,
    ensures
        ((!b >> k) & 1 == 1) == !((b >> k) & 1 == 1),
{
}

/// No bit of zero is set.
proof fn lemma_u8_zero_bit(k: u8)
    by (bit_vector)
    requires
        k < 8,
    ensures
        (0u8 >> k) & 1 != 1,
{
}

impl BitSet<1> {
    /// The bits of `value`, lowest first.
    pub fn from_u8(value: u8) -> (r: Self)
        ensures
            r.bytes@[0] == value,
    {
        Self::new([value])
    }

    /// The held bits as an unsigned integer.
    pub fn to_u8(self) -> (r: u8)
        ensures
            r == self.bytes@[0],
    {
        self.bytes[0]
    }
}

impl BitSet<2> {
    /// The bits of `value` in little-endian byte order.
    pub fn from_u16(value: u16) -> (r: Self)
        ensures
            r.bytes@[0] == (value & 0xFF) as u8,
            r.bytes@[1] == ((value >> 8) & 0xFF) as u8,
    {
        Self::new([(value & 0xFF) as u8, ((value >> 8) & 0xFF) as u8])
    }

    /// The held bits as an unsigned integer, little-endian.
    pub fn to_u16(self) -> (r: u16)
        ensures
            r == (self.bytes@[0] as u16) | ((self.bytes@[1] as u16) << 8),
    {
        (self.bytes[0] as u16) | ((self.bytes[1] as u16) << 8)
    }
}

impl BitSet<4> {
    /// The bits of `value` in little-endian byte order.
    pub fn from_u32(value: u32) -> (r: Self)
        ensures
            forall|j: int| 0 <= j < 4 ==> r.bytes@[j] == ((value >> (8 * j)) & 0xFF) as u8,
    {
        let r = Self::new(
            [
                (value & 0xFF) as u8,
                ((value >> 8) & 0xFF) as u8,
                ((value >> 16) & 0xFF) as u8,
                ((value >> 24) & 0xFF) as u8,
            ],
        );
        proof {
            assert forall|j: int| 0 <= j < 4 implies r.bytes@[j] == ((value >> (8 * j))
                & 0xFF) as u8 by {
                if j == 0 {
                    assert((value & 0xFF) as u8 == ((value >> 0) & 0xFF) as u8) by (bit_vector);
                }
            }
        }
        r
    }

    /// The held bits as an unsigned integer, little-endian.
    pub fn to_u32(self) -> (r: u32)
        ensures
            r == (self.bytes@[0] as u32) | ((self.bytes@[1] as u32) << 8) | ((
            self.bytes@[2] as u32) << 16) | ((self.bytes@[3] as u32) << 24),
    {
        (self.bytes[0] as u32) | ((self.bytes[1] as u32) << 8) | ((self.bytes[2] as u32) << 16)
            | ((self.bytes[3] as u32) << 24)
    }
}

/// Byte `k` of a 64-bit value, counting from the low end.
pub open spec fn byte_of_u64(v: u64, k: int) -> u8 {
    ((v >> ((8 * k) as u64)) & 0xFF) as u8
}

/// Byte `k` of a 128-bit value, counting from the low end.
pub open spec fn byte_of_u128(v: u128, k: int) -> u8 {
    ((v >> ((8 * k) as u128)) & 0xFF) as u8
}

impl BitSet<8> {
    /// The bits of `value` in little-endian byte order.
    pub fn from_u64(value: u64) -> (r: Self)
        ensures
            forall|j: int| 0 <= j < 8 ==> r.bytes@[j] == ((value >> (8 * j)) & 0xFF) as u8,
    {
        let mut bytes: [u8; 8] = [0; 8];
        let mut j: usize = 0;
        while j < 8
            invariant
                j <= 8,
                forall|k: int| 0 <= k < j ==> bytes@[k] == ((value >> (8 * k)) & 0xFF) as u8,
            decreases 8 - j,
        {
            bytes[j] = ((value >> ((8 * j) as u64)) & 0xFF) as u8;
            j += 1;
        }
        Self::new(bytes)
    }

    /// The held bits as an unsigned integer, little-endian.
    pub fn to_u64(self) -> (r: u64)
        ensures
            forall|j: int| 0 <= j < 8 ==> #[trigger] byte_of_u64(r, j) == self.bytes@[j],
    {
        let mut r: u64 = 0;
        let mut j: usize = 0;
        proof {
            assert forall|k: int| 0 <= k < 8 implies #[trigger] byte_of_u64(0u64, k) == 0u8 by {
                lemma_u64_zero_byte(k as u64);
            }
        }
        while j < 8
            invariant
                j <= 8,
                forall|k: int| 0 <= k < j ==> #[trigger] byte_of_u64(r, k) == self.bytes@[k],
                forall|k: int| j <= k < 8 ==> #[trigger] byte_of_u64(r, k) == 0u8,
            decreases 8 - j,
        {
            let b = self.bytes[j];
            let ghost r0 = r;
            let ghost jj = j;
            r = r | ((b as u64) << ((8 * j) as u64));
            proof {
                assert forall|k: int| 0 <= k < 8 implies #[trigger] byte_of_u64(r, k) == (if k
                    < jj + 1 {
                    self.bytes@[k]
                } else {
                    0u8
                }) by {
                    assert(byte_of_u64(r0, jj as int) == 0u8);
                    if k < jj {
                        assert(byte_of_u64(r0, k) == self.bytes@[k]);
                    } else if k > jj {
                        assert(byte_of_u64(r0, k) == 0u8);
                    }
                    lemma_u64_or_byte(r0, b, jj as u64, k as u64);
                }
            }
            j += 1;
        }
        r
    }
}

impl BitSet<16> {
    /// The bits of `value` in little-endian byte order.
    pub fn from_u128(value: u128) -> (r: Self)
        ensures
            forall|j: int| 0 <= j < 16 ==> r.bytes@[j] == ((value >> (8 * j)) & 0xFF) as u8,
    {
        let mut bytes: [u8; 16] = [0; 16];
        let mut j: usize = 0;
        while j < 16
            invariant
                j <= 16,
                forall|k: int| 0 <= k < j ==> bytes@[k] == ((value >> (8 * k)) & 0xFF) as u8,
            decreases 16 - j,
        {
            bytes[j] = ((value >> ((8 * j) as u128)) & 0xFF) as u8;
            j += 1;
        }
        Self::new(bytes)
    }

    /// The held bits as an unsigned integer, little-endian.
    pub fn to_u128(self) -> (r: u128)
        ensures
            forall|j: int| 0 <= j < 16 ==> #[trigger] byte_of_u128(r, j) == self.bytes@[j],
    {
        let mut r: u128 = 0;
        let mut j: usize = 0;
        proof {
            assert forall|k: int| 0 <= k < 16 implies #[trigger] byte_of_u128(0u128, k)
                == 0u8 by {
                lemma_u128_zero_byte(k as u128);
            }
        }
        while j < 16
            invariant
                j <= 16,
                forall|k: int| 0 <= k < j ==> #[trigger] byte_of_u128(r, k) == self.bytes@[k],
                forall|k: int| j <= k < 16 ==> #[trigger] byte_of_u128(r, k) == 0u8,
            decreases 16 - j,
        {
            let b = self.bytes[j];
            let ghost r0 = r;
            let ghost jj = j;
            r = r | ((b as u128) << ((8 * j) as u128));
            proof {
                assert forall|k: int| 0 <= k < 16 implies #[trigger] byte_of_u128(r, k) == (if k
                    < jj + 1 {
                    self.bytes@[k]
                } else {
                    0u8
                }) by {
                    assert(byte_of_u128(r0, jj as int) == 0u8);
                    if k < jj {
                        assert(byte_of_u128(r0, k) == self.bytes@[k]);
                    } else if k > jj {
                        assert(byte_of_u128(r0, k) == 0u8);
                    }
                    lemma_u128_or_byte(r0, b, jj as u128, k as u128);
                }
            }
            j += 1;
        }
        r
    }
}

/// Placing a byte with an or at a clear position keeps every other byte
/// and fills that one.
/// Every byte of zero is zero.
proof fn lemma_u64_zero_byte(k: u64)
    by (bit_vector)
    requires
        k < 8,
    ensures
        ((0u64 >> (8 * k)) & 0xFF) as u8 == 0u8,
{
}

/// Every byte of zero is zero.
proof fn lemma_u128_zero_byte(k: u128)
    by (bit_vector)
    requires
        k < 16,
    ensures
        ((0u128 >> (8 * k)) & 0xFF) as u8 == 0u8,
{
}

proof fn lemma_u64_or_byte(r0: u64, b: u8, j: u64, k: u64)
    by (bit_vector)
    requires
        j < 8,
        k < 8,
        ((r0 >> (8 * j)) & 0xFF) as u8 == 0u8,
    ensures
        k != j ==> (((r0 | ((b as u64) << (8 * j))) >> (8 * k)) & 0xFF) as u8 == ((r0 >> (8
            * k)) & 0xFF) as u8,
        k == j ==> (((r0 | ((b as u64) << (8 * j))) >> (8 * k)) & 0xFF) as u8 == b,
{
}

/// Placing a byte with an or at a clear position keeps every other byte
/// and fills that one.
proof fn lemma_u128_or_byte(r0: u128, b: u8, j: u128, k: u128)
    by (bit_vector)
    requires
        j < 16,
        k < 16,
        ((r0 >> (8 * j)) & 0xFF) as u8 == 0u8,
    ensures
        k != j ==> (((r0 | ((b as u128) << (8 * j))) >> (8 * k)) & 0xFF) as u8 == ((r0 >> (8
            * k)) & 0xFF) as u8,
        k == j ==> (((r0 | ((b as u128) << (8 * j))) >> (8 * k)) & 0xFF) as u8 == b,
{
}

/// The hexadecimal digit for a value below sixteen.
pub open spec fn hex_digit(v: int, upper: bool) -> char {
    if v == 0 {
        '0'
    } else if v == 1 {
        '1'
    } else if v == 2 {
        '2'
    } else if v == 3 {
        '3'
    } else if v == 4 {
        '4'
    } else if v == 5 {
        '5'
    } else if v == 6 {
        '6'
    } else if v == 7 {
        '7'
    } else if v == 8 {
        '8'
    } else if v == 9 {
        '9'
    } else if v == 10 {
        if upper {
            'A'
        } else {
            'a'
        }
    } else if v == 11 {
        if upper {
            'B'
        } else {
            'b'
        }
    } else if v == 12 {
        if upper {
            'C'
        } else {
            'c'
        }
    } else if v == 13 {
        if upper {
            'D'
        } else {
            'd'
        }
    } else if v == 14 {
        if upper {
            'E'
        } else {
            'e'
        }
    } else {
        if upper {
            'F'
        } else {
            'f'
        }
    }
}

/// A byte as minimal hexadecimal: one digit below sixteen, two else.
pub open spec fn byte_hex(b: u8, upper: bool) -> Seq<char> {
    if b < 16 {
        seq![hex_digit(b as int, upper)]
    } else {
        seq![hex_digit(b as int / 16, upper), hex_digit(b as int % 16, upper)]
    }
}

/// The bytes as hexadecimal, highest byte first.
pub open spec fn bytes_hex_rev(s: Seq<u8>, upper: bool) -> Seq<char>
    decreases s.len(),
{
    if s.len() == 0 {
        Seq::empty()
    } else {
        byte_hex(s.last(), upper) + bytes_hex_rev(s.drop_last(), upper)
    }
}

/// Processing one more byte downward extends the rendered hexadecimal.
proof fn lemma_bytes_hex_rev_step(s: Seq<u8>, i: int, upper: bool)
    requires
        0 <= i < s.len(),
    ensures
        bytes_hex_rev(s.skip(i), upper) == bytes_hex_rev(s.skip(i + 1), upper) + byte_hex(
            s[i],
            upper,
        ),
    decreases s.len(),
{
    if i == s.len() - 1 {
        assert(s.skip(i) =~= seq![s[i]]);
        assert(s.skip(i + 1) =~= Seq::<u8>::empty());
        assert(s.skip(i).last() == s[i]);
        assert(s.skip(i).drop_last() =~= Seq::<u8>::empty());
        assert(bytes_hex_rev(s.skip(i), upper) =~= bytes_hex_rev(s.skip(i + 1), upper)
            + byte_hex(s[i], upper));
    } else {
        let short = s.drop_last();
        lemma_bytes_hex_rev_step(short, i, upper);
        assert(s.skip(i).last() == s.last());
        assert(s.skip(i).drop_last() =~= short.skip(i));
        assert(s.skip(i + 1).last() == s.last());
        assert(s.skip(i + 1).drop_last() =~= short.skip(i + 1));
        assert(short[i] == s[i]);
        assert(bytes_hex_rev(s.skip(i), upper) =~= bytes_hex_rev(s.skip(i + 1), upper)
            + byte_hex(s[i], upper));
    }
}

/// The bits from position `top - 1` down to position `lo`, highest
/// first, as binary digits.
pub open spec fn bin_range<const BYTES: usize>(s: BitSet<BYTES>, top: int, lo: int) -> Seq<char>
    decreases top - lo,
{
    if top <= lo {
        Seq::empty()
    } else {
        seq![if s.spec_bit(top - 1) {
            '1'
        } else {
            '0'
        }] + bin_range(s, top - 1, lo)
    }
}

/// Lowering the bottom of a bit range appends one more digit.
proof fn lemma_bin_range_step<const BYTES: usize>(s: BitSet<BYTES>, top: int, lo: int)
    requires
        lo <= top,
    ensures
        bin_range(s, top, lo - 1) == bin_range(s, top, lo) + seq![
            if s.spec_bit(lo - 1) {
                '1'
            } else {
                '0'
            },
        ],
    decreases top - lo,
{
    if lo == top {
        assert(bin_range(s, top - 1, lo - 1) =~= Seq::<char>::empty());
        assert(bin_range(s, top, lo) =~= Seq::<char>::empty());
        assert(bin_range(s, top, lo - 1) =~= bin_range(s, top, lo) + seq![
            if s.spec_bit(lo - 1) {
                '1'
            } else {
                '0'
            },
        ]);
    } else {
        lemma_bin_range_step(s, top - 1, lo);
        assert(bin_range(s, top, lo - 1) =~= bin_range(s, top, lo) + seq![
            if s.spec_bit(lo - 1) {
                '1'
            } else {
                '0'
            },
        ]);
    }
}

/// The hexadecimal digit character of a value below sixteen.
fn hex_char(v: u8, upper: bool) -> (c: char)
    requires
        v < 16,
    ensures
        c == hex_digit(v as int, upper),
{
    if upper {
        match v {
            0 => '0',
            1 => '1',
            2 => '2',
            3 => '3',
            4 => '4',
            5 => '5',
            6 => '6',
            7 => '7',
            8 => '8',
            9 => '9',
            10 => 'A',
            11 => 'B',
            12 => 'C',
            13 => 'D',
            14 => 'E',
            _ => 'F',
        }
    } else {
        match v {
            0 => '0',
            1 => '1',
            2 => '2',
            3 => '3',
            4 => '4',
            5 => '5',
            6 => '6',
            7 => '7',
            8 => '8',
            9 => '9',
            10 => 'a',
            11 => 'b',
            12 => 'c',
            13 => 'd',
            14 => 'e',
            _ => 'f',
        }
    }
}

impl<const BYTES: usize> BitSet<BYTES> {
    /// The held bytes as hexadecimal digits, highest byte first, each
    /// byte as short as it prints.
    fn hex_body(&self, upper: bool) -> (r: String)
        ensures
            r@ == bytes_hex_rev(self.bytes@, upper),
    {
        let mut out = String::new();
        let mut i: usize = BYTES;
        proof {
            assert(self.bytes@.skip(BYTES as int) =~= Seq::<u8>::empty());
        }
        while i > 0
            invariant
                i <= BYTES,
                out@ == bytes_hex_rev(self.bytes@.skip(i as int), upper),
            decreases i,
        {
            i -= 1;
            let b = self.bytes[i];
            proof {
                lemma_bytes_hex_rev_step(self.bytes@, i as int, upper);
            }
            if b < 16 {
                out.push(hex_char(b, upper));
            } else {
                out.push(hex_char(b / 16, upper));
                out.push(hex_char(b % 16, upper));
            }
            proof {
                assert(out@ =~= bytes_hex_rev(self.bytes@.skip(i as int), upper));
            }
        }
        proof {
            assert(self.bytes@.skip(0) =~= self.bytes@);
        }
        out
    }

    /// Renders the bits as `Bitset(...)` in lowercase hexadecimal;
    /// `alternate` adds the `0x` prefix.
    pub fn fmt_lower_hex(&self, alternate: bool) -> (r: String)
        ensures
            r@ == "Bitset("@ + (if alternate {
                "0x"@
            } else {
                Seq::<char>::empty()
            }) + bytes_hex_rev(self.bytes@, false) + ")"@,
    {
        let mut out = String::new();
        out.append("Bitset(");
        if alternate {
            out.append("0x");
        }
        let body = self.hex_body(false);
        out.append(body.as_str());
        out.append(")");
        proof {
            assert(out@ =~= "Bitset("@ + (if alternate {
                "0x"@
            } else {
                Seq::<char>::empty()
            }) + bytes_hex_rev(self.bytes@, false) + ")"@);
        }
        out
    }

    /// Renders the bits as `Bitset(...)` in uppercase hexadecimal;
    /// `alternate` adds the `0X` prefix.
    pub fn fmt_upper_hex(&self, alternate: bool) -> (r: String)
        ensures
            r@ == "Bitset("@ + (if alternate {
                "0X"@
            } else {
                Seq::<char>::empty()
            }) + bytes_hex_rev(self.bytes@, true) + ")"@,
    {
        let mut out = String::new();
        out.append("Bitset(");
        if alternate {
            out.append("0X");
        }
        let body = self.hex_body(true);
        out.append(body.as_str());
        out.append(")");
        proof {
            assert(out@ =~= "Bitset("@ + (if alternate {
                "0X"@
            } else {
                Seq::<char>::empty()
            }) + bytes_hex_rev(self.bytes@, true) + ")"@);
        }
        out
    }

    /// Renders the bits as `Bitset(...)` in binary, highest bit first;
    /// `alternate` adds the `0b` prefix.
    pub fn fmt_binary(&self, alternate: bool) -> (r: String)
        requires
            8 * BYTES <= usize::MAX,
        ensures
            r@ == "Bitset("@ + (if alternate {
                "0b"@
            } else {
                Seq::<char>::empty()
            }) + bin_range(*self, 8 * BYTES as int, 0) + ")"@,
    {
        let ghost prefix = "Bitset("@ + (if alternate {
            "0b"@
        } else {
            Seq::<char>::empty()
        });
        let mut out = String::new();
        out.append("Bitset(");
        if alternate {
            out.append("0b");
        }
        let total = BYTES * 8;
        let mut lo = total;
        while lo > 0
            invariant
                lo <= total,
                total == 8 * BYTES <= usize::MAX,
                out@ == prefix + bin_range(*self, total as int, lo as int),
            decreases lo,
        {
            lo -= 1;
            let c = if self.get(lo) {
                '1'
            } else {
                '0'
            };
            proof {
                lemma_bin_range_step(*self, total as int, lo + 1);
            }
            out.push(c);
        }
        out.append(")");
        proof {
            assert(out@ =~= prefix + bin_range(*self, 8 * BYTES as int, 0) + ")"@);
        }
        out
    }

    /// Renders the bits for debugging: binary with its prefix when
    /// `alternate` is set, else lowercase hexadecimal with its prefix.
    pub fn fmt_debug(&self, alternate: bool) -> (r: String)
        requires
            8 * BYTES <= usize::MAX,
        ensures
            alternate ==> r@ == "Bitset("@ + "0b"@ + bin_range(*self, 8 * BYTES as int, 0)
                + ")"@,
            !alternate ==> r@ == "Bitset("@ + "0x"@ + bytes_hex_rev(self.bytes@, false) + ")"@,
    {
        if alternate {
            self.fmt_binary(true)
        } else {
            self.fmt_lower_hex(true)
        }
    }
}

/// A wrapper to allow stepping through the bits of a [`BitSet`].
pub struct IterWrapper<const BYTES: usize> {
    /// The bit set being stepped through.
    pub set: BitSet<BYTES>,
    /// The next position from the front.
    pub pos: usize,
    /// One past the last remaining position from the back.
    pub end: usize,
}

impl<const BYTES: usize> IterWrapper<BYTES> {
    /// Whether the positions address bits of the set.
    pub open spec fn wf(self) -> bool {
        self.pos <= self.end <= 8 * BYTES
    }

    /// The next bit from the front, if any remains.
    pub fn next(&mut self) -> (r: Option<bool>)
        requires
            old(self).wf(),
        ensures
            final(self).wf(),
            final(self).set == old(self).set,
            final(self).end == old(self).end,
            old(self).pos >= old(self).end ==> r is None && final(self).pos == old(self).pos,
            old(self).pos < old(self).end ==> final(self).pos == old(self).pos + 1 && r
                == Some(old(self).set.spec_bit(old(self).pos as int)),
    {
        if self.pos >= self.end {
            return None;
        }
        self.pos += 1;
        Some(self.set.get(self.pos - 1))
    }

    /// The number of bits that remain.
    pub fn len(&self) -> (r: usize)
        requires
            self.wf(),
        ensures
            r == self.end - self.pos,
    {
        self.end - self.pos
    }

    /// The next bit from the back, if any remains.
    pub fn next_back(&mut self) -> (r: Option<bool>)
        requires
            old(self).wf(),
        ensures
            final(self).wf(),
            final(self).set == old(self).set,
            final(self).pos == old(self).pos,
            old(self).pos >= old(self).end ==> r is None && final(self).end == old(self).end,
            old(self).pos < old(self).end ==> final(self).end == old(self).end - 1 && r
                == Some(old(self).set.spec_bit(old(self).end - 1)),
    {
        if self.pos >= self.end {
            return None;
        }
        self.end -= 1;
        Some(self.set.get(self.end))
    }
}

impl<const BYTES: usize> BitSet<BYTES> {
    /// Steps through all bits, lowest first.
    pub fn bits(self) -> (r: IterWrapper<BYTES>)
        requires
            8 * BYTES <= usize::MAX,
        ensures
            r.set == self,
            r.pos == 0,
            r.end == 8 * BYTES,
            r.wf(),
    {
        IterWrapper { set: self, pos: 0, end: BYTES * 8 }
    }
}

} // verus!
