//! The shared bitmap: one bit per row, least-significant bit first, as
//! Arrow lays out validity.
//!
//! Bit `i` lives in byte `i / 8` at position `i % 8`. Padding bits past the
//! length are always zero (the canonical form), so two bitmaps hold the same
//! bits exactly when their bytes and lengths agree.
//!
//! Handles share their bytes: a clone does not copy them, and mutation copies
//! on write.
use crate::sealed::make_unique;
use std::sync::Arc;
use vstd::prelude::*;

verus! {

/// Bit `i` of `byte`, counted from the least significant.
pub open spec fn bit_of(byte: u8, i: u8) -> bool {
    byte & (1u8 << i) != 0
}

/// Bit `k` of a byte sequence in Arrow's order.
pub open spec fn bit_at(bytes: Seq<u8>, k: int) -> bool {
    bit_of(bytes[k / 8], (k % 8) as u8)
}

/// `bytes` is the canonical packing of `bits`: just enough bytes, every bit
/// in its place, padding zero.
pub open spec fn packs(bytes: Seq<u8>, bits: Seq<bool>) -> bool {
    &&& bytes.len() == (bits.len() + 7) / 8
    &&& forall|k: int| 0 <= k < bits.len() ==> #[trigger] bit_at(bytes, k) == bits[k]
    &&& forall|k: int|
        bits.len() <= k < 8 * bytes.len() ==> !#[trigger] bit_at(bytes, k)
}

/// How many of `bits` are set.
pub open spec fn count_true(bits: Seq<bool>) -> nat
    decreases bits.len(),
{
    if bits.len() == 0 {
        0
    } else {
        count_true(bits.drop_last()) + if bits.last() {
            1nat
        } else {
            0nat
        }
    }
}

/// The positions of the set bits, in increasing order.
pub open spec fn set_indices(bits: Seq<bool>) -> Seq<int>
    decreases bits.len(),
{
    if bits.len() == 0 {
        Seq::empty()
    } else if bits.last() {
        set_indices(bits.drop_last()).push(bits.len() - 1)
    } else {
        set_indices(bits.drop_last())
    }
}

/// Bit-for-bit conjunction.
pub open spec fn bits_and(a: Seq<bool>, b: Seq<bool>) -> Seq<bool> {
    Seq::new(a.len(), |i: int| a[i] && b[i])
}

/// Bit-for-bit disjunction.
pub open spec fn bits_or(a: Seq<bool>, b: Seq<bool>) -> Seq<bool> {
    Seq::new(a.len(), |i: int| a[i] || b[i])
}

/// Bit-for-bit negation.
pub open spec fn bits_not(a: Seq<bool>) -> Seq<bool> {
    Seq::new(a.len(), |i: int| !a[i])
}

/// A fixed-length sequence of bits in Arrow's validity-bitmap layout.
#[derive(Debug)]
pub struct Bitmap {
    /// Just enough bytes for `len` bits; padding bits past `len` are zero.
    bytes: Arc<Vec<u8>>,
    /// Length in bits.
    len: usize,
}

impl View for Bitmap {
    type V = Seq<bool>;

    closed spec fn view(&self) -> Seq<bool> {
        Seq::new(self.len as nat, |i: int| bit_at(self.bytes@, i))
    }
}

/// Number of bytes needed to hold `len` bits.
pub fn byte_len(len: usize) -> (bytes: usize)
    ensures
        bytes == (len + 7) / 8,
{
    len / 8 + if len % 8 == 0 {
        0
    } else {
        1
    }
}

/// Mask selecting the payload bits of the final byte, or `0xFF` when the
/// length is a whole number of bytes (including zero).
pub fn tail_mask(len: usize) -> (mask: u8)
    ensures
        forall|i: u8| i < 8 ==> #[trigger] bit_of(mask, i) == (len % 8 == 0 || i < len % 8),
{
    let tail: u8 = (len % 8) as u8;
    if tail == 0 {
        assert(forall|i: u8| i < 8 ==> 0xFFu8 & (1u8 << i) != 0) by (bit_vector);
        0xFF
    } else {
        assert(1u8 << tail >= 1) by (bit_vector)
            requires
                0 < tail < 8,
        ;
        let mask: u8 = (1u8 << tail) - 1;
        assert(forall|i: u8|
            i < 8 ==> (mask & (1u8 << i) != 0) == (i < tail)) by (bit_vector)
            requires
                0 < tail < 8,
                mask == (1u8 << tail) - 1,
        ;
        mask
    }
}

/// How one byte's bits combine under the byte operators.
proof fn lemma_byte_ops(a: u8, b: u8)
    ensures
        forall|i: u8|
            i < 8 ==> #[trigger] bit_of(a & b, i) == (bit_of(a, i) && bit_of(b, i)),
        forall|i: u8|
            i < 8 ==> #[trigger] bit_of(a | b, i) == (bit_of(a, i) || bit_of(b, i)),
        forall|i: u8| i < 8 ==> #[trigger] bit_of(!a, i) == !bit_of(a, i),
        forall|i: u8| i < 8 ==> !#[trigger] bit_of(0u8, i),
{
    assert(forall|i: u8|
        i < 8 ==> ((a & b) & (1u8 << i) != 0) == ((a & (1u8 << i) != 0) && (b & (1u8 << i) != 0)))
        by (bit_vector);
    assert(forall|i: u8|
        i < 8 ==> ((a | b) & (1u8 << i) != 0) == ((a & (1u8 << i) != 0) || (b & (1u8 << i) != 0)))
        by (bit_vector);
    assert(forall|i: u8| i < 8 ==> ((!a) & (1u8 << i) != 0) == !(a & (1u8 << i) != 0))
        by (bit_vector);
    assert(forall|i: u8| i < 8 ==> !(0u8 & (1u8 << i) != 0)) by (bit_vector);
}

/// The one-bit mask for position `p`.
proof fn lemma_one_bit(p: u8)
    requires
        p < 8,
    ensures
        forall|i: u8| i < 8 ==> #[trigger] bit_of(1u8 << p, i) == (i == p),
{
    assert(forall|i: u8| i < 8 ==> ((1u8 << p) & (1u8 << i) != 0) == (i == p)) by (bit_vector)
        requires
            p < 8,
    ;
}

/// A byte is determined by its eight bits.
proof fn lemma_byte_ext(a: u8, b: u8)
    requires
        forall|i: u8| i < 8 ==> #[trigger] bit_of(a, i) == bit_of(b, i),
    ensures
        a == b,
{
    assert(bit_of(a, 0) == bit_of(b, 0) && bit_of(a, 1) == bit_of(b, 1) && bit_of(a, 2) == bit_of(
        b,
        2,
    ) && bit_of(a, 3) == bit_of(b, 3) && bit_of(a, 4) == bit_of(b, 4) && bit_of(a, 5) == bit_of(
        b,
        5,
    ) && bit_of(a, 6) == bit_of(b, 6) && bit_of(a, 7) == bit_of(b, 7));
    assert(a == b) by (bit_vector)
        requires
            (a & (1u8 << 0u8) != 0) == (b & (1u8 << 0u8) != 0),
            (a & (1u8 << 1u8) != 0) == (b & (1u8 << 1u8) != 0),
            (a & (1u8 << 2u8) != 0) == (b & (1u8 << 2u8) != 0),
            (a & (1u8 << 3u8) != 0) == (b & (1u8 << 3u8) != 0),
            (a & (1u8 << 4u8) != 0) == (b & (1u8 << 4u8) != 0),
            (a & (1u8 << 5u8) != 0) == (b & (1u8 << 5u8) != 0),
            (a & (1u8 << 6u8) != 0) == (b & (1u8 << 6u8) != 0),
            (a & (1u8 << 7u8) != 0) == (b & (1u8 << 7u8) != 0),
    ;
}

/// The canonical packing is unique: one sequence of bits has one sequence of
/// bytes.
pub proof fn lemma_packing_unique(a: Seq<u8>, b: Seq<u8>, bits: Seq<bool>)
    requires
        packs(a, bits),
        packs(b, bits),
    ensures
        a == b,
{
    assert forall|j: int| 0 <= j < a.len() implies a[j] == b[j] by {
        assert forall|i: u8| i < 8 implies #[trigger] bit_of(a[j], i) == bit_of(b[j], i) by {
            let k = 8 * j + i;
            assert(k / 8 == j && k % 8 == i);
            assert(bit_at(a, k) == bit_at(b, k));
        }
        lemma_byte_ext(a[j], b[j]);
    }
    assert(a =~= b);
}

/// Negation undoes itself.
pub proof fn lemma_not_involutive(bits: Seq<bool>)
    ensures
        bits_not(bits_not(bits)) == bits,
{
    assert(bits_not(bits_not(bits)) =~= bits);
}

/// De Morgan: negating a conjunction is disjoining the negations, and the
/// other way round.
pub proof fn lemma_de_morgan(a: Seq<bool>, b: Seq<bool>)
    requires
        a.len() == b.len(),
    ensures
        bits_not(bits_and(a, b)) == bits_or(bits_not(a), bits_not(b)),
        bits_not(bits_or(a, b)) == bits_and(bits_not(a), bits_not(b)),
{
    assert(bits_not(bits_and(a, b)) =~= bits_or(bits_not(a), bits_not(b)));
    assert(bits_not(bits_or(a, b)) =~= bits_and(bits_not(a), bits_not(b)));
}

/// All-ones and all-zeros are the identity and the annihilator of AND, the
/// other way round for OR, and each other's negation.
pub proof fn lemma_op_identities(bits: Seq<bool>)
    ensures
        bits_and(bits, Seq::new(bits.len(), |i: int| true)) == bits,
        bits_and(bits, Seq::new(bits.len(), |i: int| false)) == Seq::new(
            bits.len(),
            |i: int| false,
        ),
        bits_or(bits, Seq::new(bits.len(), |i: int| false)) == bits,
        bits_or(bits, Seq::new(bits.len(), |i: int| true)) == Seq::new(bits.len(), |i: int| true),
        bits_not(Seq::new(bits.len(), |i: int| true)) == Seq::new(bits.len(), |i: int| false),
        bits_not(Seq::new(bits.len(), |i: int| false)) == Seq::new(bits.len(), |i: int| true),
{
    let ones = Seq::new(bits.len(), |i: int| true);
    let zeros = Seq::new(bits.len(), |i: int| false);
    assert(bits_and(bits, ones) =~= bits);
    assert(bits_and(bits, zeros) =~= zeros);
    assert(bits_or(bits, zeros) =~= bits);
    assert(bits_or(bits, ones) =~= ones);
    assert(bits_not(ones) =~= zeros);
    assert(bits_not(zeros) =~= ones);
}

/// The count of set bits is at most the length, and reaches it exactly when
/// every bit is set.
pub proof fn lemma_count_bounds(bits: Seq<bool>)
    ensures
        count_true(bits) <= bits.len(),
        count_true(bits) == bits.len() <==> (forall|i: int| 0 <= i < bits.len() ==> bits[i]),
        count_true(bits) == 0 <==> (forall|i: int| 0 <= i < bits.len() ==> !bits[i]),
    decreases bits.len(),
{
    if bits.len() > 0 {
        let rest = bits.drop_last();
        lemma_count_bounds(rest);
        if forall|i: int| 0 <= i < bits.len() ==> bits[i] {
            assert(forall|i: int| 0 <= i < rest.len() ==> rest[i]) by {
                assert(forall|i: int| 0 <= i < rest.len() ==> rest[i] == bits[i]);
            }
            assert(bits.last());
        }
        if forall|i: int| 0 <= i < bits.len() ==> !bits[i] {
            assert(forall|i: int| 0 <= i < rest.len() ==> !rest[i]) by {
                assert(forall|i: int| 0 <= i < rest.len() ==> rest[i] == bits[i]);
            }
            assert(!bits.last());
        }
        if count_true(bits) == bits.len() {
            assert(forall|i: int| 0 <= i < bits.len() ==> bits[i]) by {
                assert(forall|i: int| 0 <= i < rest.len() ==> rest[i] == bits[i]);
            }
        }
        if count_true(bits) == 0 {
            assert(forall|i: int| 0 <= i < bits.len() ==> !bits[i]) by {
                assert(forall|i: int| 0 <= i < rest.len() ==> rest[i] == bits[i]);
            }
        }
    }
}

/// The set positions are exactly the set bits, each once, in increasing
/// order, and there are `count_true` of them.
pub proof fn lemma_set_indices(bits: Seq<bool>)
    ensures
        set_indices(bits).len() == count_true(bits),
        forall|j: int|
            0 <= j < set_indices(bits).len() ==> 0 <= #[trigger] set_indices(bits)[j] < bits.len()
                && bits[set_indices(bits)[j]],
        forall|i: int, j: int|
            0 <= i < j < set_indices(bits).len() ==> #[trigger] set_indices(bits)[i]
                < #[trigger] set_indices(bits)[j],
        forall|i: int| 0 <= i < bits.len() && bits[i] ==> set_indices(bits).contains(i),
    decreases bits.len(),
{
    if bits.len() > 0 {
        let rest = bits.drop_last();
        lemma_set_indices(rest);
        assert forall|i: int| 0 <= i < bits.len() && bits[i] implies set_indices(bits).contains(
            i,
        ) by {
            if i < rest.len() {
                assert(rest[i]);
                let j = choose|j: int|
                    0 <= j < set_indices(rest).len() && set_indices(rest)[j] == i;
                assert(set_indices(bits)[j] == i);
            } else {
                assert(set_indices(bits)[set_indices(bits).len() - 1] == i);
            }
        }
    }
}

impl Bitmap {
    #[verifier::type_invariant]
    spec fn canonical(&self) -> bool {
        &&& self.bytes@.len() == (self.len + 7) / 8
        &&& forall|k: int|
            self.len <= k < 8 * self.bytes@.len() ==> !#[trigger] bit_at(self.bytes@, k)
    }

    /// A bitmap of `len` bits, all set.
    pub fn new_set(len: usize) -> (bm: Self)
        ensures
            bm@ == Seq::new(len as nat, |i: int| true),
    {
        let count: usize = byte_len(len);
        let mut bytes: Vec<u8> = vec![0xFFu8; count];
        let mask: u8 = tail_mask(len);
        assert(forall|i: u8| i < 8 ==> bit_of(0xFFu8, i)) by {
            assert(forall|i: u8| i < 8 ==> 0xFFu8 & (1u8 << i) != 0) by (bit_vector);
        }
        if count > 0 {
            let last: u8 = bytes[count - 1];
            bytes.set(count - 1, last & mask);
            proof {
                lemma_byte_ops(last, mask);
            }
        }
        let bm = Bitmap { bytes: Arc::new(bytes), len };
        assert(bm@ =~= Seq::new(len as nat, |i: int| true));
        bm
    }

    /// A bitmap of `len` bits, all unset.
    pub fn new_unset(len: usize) -> (bm: Self)
        ensures
            bm@ == Seq::new(len as nat, |i: int| false),
    {
        let bytes: Vec<u8> = vec![0u8; byte_len(len)];
        proof {
            lemma_byte_ops(0, 0);
        }
        let bm = Bitmap { bytes: Arc::new(bytes), len };
        assert(bm@ =~= Seq::new(len as nat, |i: int| false));
        bm
    }

    /// Builds a bitmap from one bool per bit.
    pub fn from_bools(bools: &[bool]) -> (bm: Self)
        ensures
            bm@ == bools@,
    {
        let mut bytes: Vec<u8> = Vec::with_capacity(byte_len(bools.len()));
        let mut len: usize = 0;
        while len < bools.len()
            invariant
                len <= bools@.len(),
                bytes@.len() == (len + 7) / 8,
                forall|k: int| 0 <= k < len ==> #[trigger] bit_at(bytes@, k) == bools@[k],
                forall|k: int| len <= k < 8 * bytes@.len() ==> !#[trigger] bit_at(bytes@, k),
            decreases bools@.len() - len,
        {
            let ghost before = bytes@;
            if len % 8 == 0 {
                bytes.push(0);
                proof {
                    lemma_byte_ops(0, 0);
                }
                assert forall|k: int| 0 <= k < 8 * before.len() implies bit_at(bytes@, k)
                    == #[trigger] bit_at(before, k) by {}
                assert forall|k: int| len <= k < 8 * bytes@.len() implies !#[trigger] bit_at(
                    bytes@,
                    k,
                ) by {
                    if k < 8 * before.len() {
                        assert(!bit_at(before, k));
                    }
                }
            }
            assert forall|k: int| 0 <= k < len implies #[trigger] bit_at(bytes@, k)
                == bools@[k] by {
                assert(bit_at(before, k) == bools@[k]);
            }
            if bools[len] {
                let position: u8 = (len % 8) as u8;
                let index: usize = bytes.len() - 1;
                let byte: u8 = bytes[index];
                let ghost pushed = bytes@;
                bytes.set(index, byte | (1u8 << position));
                proof {
                    lemma_byte_ops(byte, 1u8 << position);
                    lemma_one_bit(position);
                }
                assert(index == len / 8);
                assert forall|k: int| 0 <= k < 8 * bytes@.len() && k != len implies bit_at(
                    bytes@,
                    k,
                ) == #[trigger] bit_at(pushed, k) by {}
                assert forall|k: int| 0 <= k < len + 1 implies #[trigger] bit_at(bytes@, k)
                    == bools@[k] by {
                    if k < len {
                        assert(bit_at(pushed, k) == bools@[k]);
                    }
                }
                assert forall|k: int| len + 1 <= k < 8 * bytes@.len() implies !#[trigger] bit_at(
                    bytes@,
                    k,
                ) by {
                    assert(!bit_at(pushed, k));
                }
            } else {
                assert(!bit_at(bytes@, len as int));
            }
            len += 1;
        }
        let bm = Bitmap { bytes: Arc::new(bytes), len };
        assert(bm@ =~= bools@);
        bm
    }

    /// Length in bits.
    pub fn len(&self) -> (len: usize)
        ensures
            len == self@.len(),
    {
        self.len
    }

    /// Whether the bitmap has zero bits.
    pub fn is_empty(&self) -> (empty: bool)
        ensures
            empty == (self@.len() == 0),
    {
        self.len == 0
    }

    /// The bit at `index`.
    pub fn get(&self, index: usize) -> (bit: bool)
        requires
            index < self@.len(),
        ensures
            bit == self@[index as int],
    {
        proof {
            use_type_invariant(self);
        }
        let position: u8 = (index % 8) as u8;
        self.bytes[index / 8] & (1u8 << position) != 0
    }

    /// Sets the bit at `index` to `value`.
    pub fn set(&mut self, index: usize, value: bool)
        requires
            index < old(self)@.len(),
        ensures
            final(self)@ == old(self)@.update(index as int, value),
    {
        proof {
            use_type_invariant(&*self);
        }
        let ghost before = *self;
        let mut taken = Bitmap { bytes: Arc::new(Vec::new()), len: 0 };
        std::mem::swap(self, &mut taken);
        let len: usize = taken.len;
        let mut shared: Arc<Vec<u8>> = taken.bytes;
        let bytes: &mut Vec<u8> = make_unique(&mut shared);
        let position: u8 = (index % 8) as u8;
        let mask: u8 = 1u8 << position;
        let byte: u8 = bytes[index / 8];
        proof {
            lemma_one_bit(position);
            lemma_byte_ops(byte, mask);
            lemma_byte_ops(mask, mask);
            lemma_byte_ops(byte, !mask);
        }
        if value {
            bytes.set(index / 8, byte | mask);
        } else {
            bytes.set(index / 8, byte & !mask);
        }
        assert forall|k: int| 0 <= k < 8 * bytes@.len() && k != index implies bit_at(bytes@, k)
            == #[trigger] bit_at(before.bytes@, k) by {}
        assert forall|k: int| len <= k < 8 * bytes@.len() implies !#[trigger] bit_at(
            bytes@,
            k,
        ) by {
            assert(!bit_at(before.bytes@, k));
        }
        *self = Bitmap { bytes: shared, len };
        assert(self@ =~= old(self)@.update(index as int, value));
    }

    /// Number of set bits.
    ///
    /// For a validity bitmap this is the column's non-null count; for a row
    /// selection it is the number of selected rows.
    pub fn count_set(&self) -> (count: usize)
        ensures
            count == count_true(self@),
    {
        let mut count: usize = 0;
        let mut index: usize = 0;
        while index < self.len
            invariant
                index <= self.len,
                count <= index,
                self@.len() == self.len,
                count == count_true(self@.take(index as int)),
            decreases self.len - index,
        {
            assert(self@.take(index + 1).drop_last() =~= self@.take(index as int));
            if self.get(index) {
                count += 1;
            }
            index += 1;
        }
        assert(self@.take(self.len as int) =~= self@);
        count
    }

    /// Bitwise AND with an equal-length bitmap.
    ///
    /// For validity, AND is "non-null in both", the validity of a two-input
    /// arithmetic expression. For selections, it is predicate conjunction.
    pub fn and(&self, other: &Bitmap) -> (bm: Bitmap)
        requires
            self@.len() == other@.len(),
        ensures
            bm@ == bits_and(self@, other@),
    {
        proof {
            use_type_invariant(self);
            use_type_invariant(other);
        }
        let mut bytes: Vec<u8> = Vec::with_capacity(self.bytes.len());
        let mut index: usize = 0;
        while index < self.bytes.len()
            invariant
                index <= self.bytes@.len(),
                self.bytes@.len() == other.bytes@.len(),
                bytes@.len() == index,
                forall|j: int|
                    0 <= j < index ==> #[trigger] bytes@[j] == self.bytes@[j] & other.bytes@[j],
            decreases self.bytes@.len() - index,
        {
            bytes.push(self.bytes[index] & other.bytes[index]);
            index += 1;
        }
        assert forall|k: int| 0 <= k < 8 * bytes@.len() implies #[trigger] bit_at(bytes@, k) == (
        bit_at(self.bytes@, k) && bit_at(other.bytes@, k)) by {
            lemma_byte_ops(self.bytes@[k / 8], other.bytes@[k / 8]);
        }
        let bm = Bitmap { bytes: Arc::new(bytes), len: self.len };
        assert(bm@ =~= bits_and(self@, other@));
        bm
    }

    /// Bitwise OR with an equal-length bitmap.
    pub fn or(&self, other: &Bitmap) -> (bm: Bitmap)
        requires
            self@.len() == other@.len(),
        ensures
            bm@ == bits_or(self@, other@),
    {
        proof {
            use_type_invariant(self);
            use_type_invariant(other);
        }
        let mut bytes: Vec<u8> = Vec::with_capacity(self.bytes.len());
        let mut index: usize = 0;
        while index < self.bytes.len()
            invariant
                index <= self.bytes@.len(),
                self.bytes@.len() == other.bytes@.len(),
                bytes@.len() == index,
                forall|j: int|
                    0 <= j < index ==> #[trigger] bytes@[j] == self.bytes@[j] | other.bytes@[j],
            decreases self.bytes@.len() - index,
        {
            bytes.push(self.bytes[index] | other.bytes[index]);
            index += 1;
        }
        assert forall|k: int| 0 <= k < 8 * bytes@.len() implies #[trigger] bit_at(bytes@, k) == (
        bit_at(self.bytes@, k) || bit_at(other.bytes@, k)) by {
            lemma_byte_ops(self.bytes@[k / 8], other.bytes@[k / 8]);
        }
        let bm = Bitmap { bytes: Arc::new(bytes), len: self.len };
        assert(bm@ =~= bits_or(self@, other@));
        bm
    }

    /// Bitwise NOT.
    pub fn not(&self) -> (bm: Bitmap)
        ensures
            bm@ == bits_not(self@),
    {
        proof {
            use_type_invariant(self);
        }
        let mut bytes: Vec<u8> = Vec::with_capacity(self.bytes.len());
        let mut index: usize = 0;
        while index < self.bytes.len()
            invariant
                index <= self.bytes@.len(),
                bytes@.len() == index,
                forall|j: int| 0 <= j < index ==> #[trigger] bytes@[j] == !self.bytes@[j],
            decreases self.bytes@.len() - index,
        {
            bytes.push(!self.bytes[index]);
            index += 1;
        }
        // Negation is the one operation that turns padding into ones: mask
        // the tail again.
        let mask: u8 = tail_mask(self.len);
        let count: usize = bytes.len();
        if count > 0 {
            let last: u8 = bytes[count - 1];
            bytes.set(count - 1, last & mask);
            proof {
                lemma_byte_ops(last, mask);
            }
        }
        assert forall|k: int| 0 <= k < 8 * bytes@.len() implies #[trigger] bit_at(bytes@, k) == (k
            < self.len && !bit_at(self.bytes@, k)) by {
            lemma_byte_ops(self.bytes@[k / 8], 0);
            if k / 8 == count - 1 {
                lemma_byte_ops(!self.bytes@[k / 8], mask);
            }
        }
        let bm = Bitmap { bytes: Arc::new(bytes), len: self.len };
        assert(bm@ =~= bits_not(self@));
        bm
    }

    /// The indices of the set bits, in increasing order.
    ///
    /// For a row selection this is the scan order: each index is a selected
    /// row.
    pub fn iter_set(&self) -> (indices: Vec<usize>)
        ensures
            indices@.map_values(|i: usize| i as int) == set_indices(self@),
    {
        let mut indices: Vec<usize> = Vec::new();
        let mut index: usize = 0;
        assert(indices@.map_values(|i: usize| i as int) =~= set_indices(
            self@.take(0),
        ));
        while index < self.len
            invariant
                index <= self.len,
                self@.len() == self.len,
                indices@.map_values(|i: usize| i as int) == set_indices(self@.take(index as int)),
            decreases self.len - index,
        {
            assert(self@.take(index + 1).drop_last() =~= self@.take(index as int));
            if self.get(index) {
                let ghost before = indices@;
                indices.push(index);
                assert(indices@.map_values(|i: usize| i as int) =~= before.map_values(
                    |i: usize| i as int,
                ).push(index as int));
            }
            index += 1;
        }
        assert(self@.take(self.len as int) =~= self@);
        indices
    }

    /// A handle to the underlying bytes, which are shared and not copied.
    pub(crate) fn shared_bytes(&self) -> (bytes: Arc<Vec<u8>>)
        ensures
            packs(bytes@, self@),
    {
        proof {
            use_type_invariant(self);
        }
        self.bytes.clone()
    }

    /// The underlying bytes, least-significant bit first, padding bits zero:
    /// exactly the buffer Arrow's C Data Interface expects for validity.
    pub fn as_bytes(&self) -> (bytes: &[u8])
        ensures
            packs(bytes@, self@),
    {
        proof {
            use_type_invariant(self);
        }
        self.bytes.as_slice()
    }
}

impl Clone for Bitmap {
    fn clone(&self) -> (bm: Self)
        ensures
            bm@ == self@,
    {
        proof {
            use_type_invariant(self);
        }
        Bitmap { bytes: self.bytes.clone(), len: self.len }
    }
}

impl vstd::std_specs::cmp::PartialEqSpecImpl for Bitmap {
    open spec fn obeys_eq_spec() -> bool {
        true
    }

    open spec fn eq_spec(&self, other: &Self) -> bool {
        self@ == other@
    }
}

impl PartialEq for Bitmap {
    fn eq(&self, other: &Self) -> (equal: bool) {
        proof {
            use_type_invariant(self);
            use_type_invariant(other);
            if self@ == other@ {
                assert(packs(self.bytes@, self@));
                assert(packs(other.bytes@, self@));
                lemma_packing_unique(self.bytes@, other.bytes@, self@);
            }
        }
        let equal: bool = self.len == other.len && *self.bytes == *other.bytes;
        proof {
            if equal {
                assert(self.bytes@ =~= other.bytes@);
                assert(self@ =~= other@);
            }
        }
        equal
    }
}

impl Eq for Bitmap {

}

} // verus!
