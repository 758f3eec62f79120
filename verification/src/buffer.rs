//! Contiguous element buffers, the physical storage behind every column,
//! and the numeric columns made of them.
//!
//! Handles share their allocation: cloning a buffer does not copy its
//! elements. Mutation first ensures that the handle is the only owner,
//! copying if it is not, so clones behave exactly like independent buffers.
//!
//! The storage is a vector's, aligned for its elements. Arrow recommends
//! 64-byte alignment; that is not guaranteed here, and a consumer that needs
//! it has to copy.
use crate::bitmap::{count_true, lemma_count_bounds, Bitmap};
use crate::float64::Float64;
use crate::sealed::{make_unique, Sealed};
use std::fmt::Debug;
use std::ops::Deref;
use std::sync::Arc;
use vstd::prelude::*;
use vstd::std_specs::cmp::PartialEqSpec;

verus! {

/// The element types a [`Buffer`] may hold.
///
/// Sealed to the physical types the format defines: floats and integers for
/// value columns, and dictionary codes for key columns.
pub trait Element: Sealed + Copy + PartialEq + Debug + Send + Sync + 'static {

}

impl Element for Float64 {

}

impl Element for i64 {

}

impl Element for u32 {

}

/// A growable, contiguous buffer of one [`Element`] type. Clones share the
/// allocation; mutation copies on write.
#[derive(Debug)]
pub struct Buffer<T: Element> {
    data: Arc<Vec<T>>,
}

impl<T: Element> View for Buffer<T> {
    type V = Seq<T>;

    closed spec fn view(&self) -> Seq<T> {
        (*self.data)@
    }
}

impl<T: Element> Buffer<T> {
    /// An empty buffer. Does not allocate room for elements.
    pub fn new() -> (buffer: Self)
        ensures
            buffer@ == Seq::<T>::empty(),
    {
        Buffer { data: Arc::new(Vec::new()) }
    }

    /// An empty buffer with room for `cap` elements.
    ///
    /// The room spares later growth and is no part of what the buffer holds;
    /// how much of it the allocator gave is not stated.
    pub fn with_capacity(cap: usize) -> (buffer: Self)
        requires
            cap * vstd::layout::size_of::<T>() <= isize::MAX,
        ensures
            buffer@ == Seq::<T>::empty(),
    {
        Buffer { data: Arc::new(Vec::with_capacity(cap)) }
    }

    /// A buffer holding a copy of `values`.
    pub fn from_slice(values: &[T]) -> (buffer: Self)
        ensures
            buffer@ == values@,
    {
        Buffer { data: Arc::new(vstd::slice::slice_to_vec(values)) }
    }

    /// A buffer of the elements of `values`.
    pub fn from_vec(values: Vec<T>) -> (buffer: Self)
        ensures
            buffer@ == values@,
    {
        Buffer { data: Arc::new(values) }
    }

    /// Appends one element.
    pub fn push(&mut self, value: T)
        ensures
            final(self)@ == old(self)@.push(value),
    {
        make_unique(&mut self.data).push(value);
    }

    /// Appends a slice of elements.
    pub fn extend_from_slice(&mut self, values: &[T])
        ensures
            final(self)@ == old(self)@ + values@,
    {
        let owned = make_unique(&mut self.data);
        let mut index: usize = 0;
        let ghost before = owned@;
        while index < values.len()
            invariant
                index <= values@.len(),
                owned@ == before + values@.take(index as int),
            decreases values@.len() - index,
        {
            owned.push(values[index]);
            index += 1;
            assert(before + values@.take(index as int) =~= (before + values@.take(
                index - 1,
            )).push(values@[index - 1]));
        }
        assert(values@.take(values@.len() as int) =~= values@);
    }

    /// Number of elements.
    pub fn len(&self) -> (len: usize)
        ensures
            len == self@.len(),
    {
        self.data.len()
    }

    /// Whether the buffer holds no elements.
    pub fn is_empty(&self) -> (empty: bool)
        ensures
            empty == (self@.len() == 0),
    {
        self.data.len() == 0
    }

    /// The elements as a slice.
    pub fn as_slice(&self) -> (slice: &[T])
        ensures
            slice@ == self@,
    {
        self.data.as_slice()
    }

    /// The elements as a mutable slice (copies first if the allocation is
    /// shared).
    pub fn as_mut_slice(&mut self) -> (slice: &mut [T])
        ensures
            slice@ == old(self)@,
            final(self)@ == final(slice)@,
    {
        make_unique(&mut self.data).as_mut_slice()
    }
}

impl<T: Element> Default for Buffer<T> {
    fn default() -> (buffer: Self)
        ensures
            buffer@ == Seq::<T>::empty(),
    {
        Buffer::new()
    }
}

impl<T: Element> Clone for Buffer<T> {
    /// Shares the allocation. The first mutation of either handle copies.
    fn clone(&self) -> (buffer: Self)
        ensures
            buffer@ == self@,
    {
        Buffer { data: self.data.clone() }
    }
}

impl<T: Element> Deref for Buffer<T> {
    type Target = [T];

    fn deref(&self) -> (slice: &[T])
        ensures
            slice@ == self@,
    {
        self.as_slice()
    }
}

impl<T: Element> vstd::std_specs::cmp::PartialEqSpecImpl for Buffer<T> {
    open spec fn obeys_eq_spec() -> bool {
        T::obeys_eq_spec()
    }

    open spec fn eq_spec(&self, other: &Self) -> bool {
        same_elements(self@, other@)
    }
}

impl<T: Element> PartialEq for Buffer<T> {
    fn eq(&self, other: &Self) -> (equal: bool) {
        *self.data == *other.data
    }
}

/// Equal lengths, and equal elements by the element type's own equality.
pub open spec fn same_elements<T: Element>(a: Seq<T>, b: Seq<T>) -> bool {
    &&& a.len() == b.len()
    &&& forall|i: int| 0 <= i < a.len() ==> (#[trigger] a[i]).eq_spec(&b[i])
}

/// The bits of an optional bitmap.
pub open spec fn mask_of(validity: Option<Bitmap>) -> Option<Seq<bool>> {
    match validity {
        Some(bitmap) => Some(bitmap@),
        None => None,
    }
}

/// One bit per row, set where the row holds a value: the bitmap's bits, or
/// all set without one.
pub open spec fn valid_bits(mask: Option<Seq<bool>>, rows: nat) -> Seq<bool> {
    match mask {
        Some(bits) => bits,
        None => Seq::new(rows, |i: int| true),
    }
}

/// The null rows under a mask: every row that is not valid.
pub open spec fn nulls(mask: Option<Seq<bool>>, rows: nat) -> int {
    rows - count_true(valid_bits(mask, rows))
}

/// Without a bitmap there are no nulls; with one, the nulls and the set bits
/// partition the rows.
pub proof fn lemma_nulls_partition(mask: Option<Seq<bool>>, rows: nat)
    requires
        mask matches Some(bits) ==> bits.len() == rows,
    ensures
        0 <= nulls(mask, rows) <= rows,
        nulls(mask, rows) + count_true(valid_bits(mask, rows)) == rows,
        mask is None ==> nulls(mask, rows) == 0,
{
    lemma_count_bounds(valid_bits(mask, rows));
}

/// A numeric column: a value buffer plus validity, present only when the
/// schema declares the column nullable.
///
/// A `NOT NULL` column has no bitmap. For a nullable column, the value under
/// a null slot is unspecified but initialized.
#[derive(Debug)]
pub struct NumericColumn<T: Element> {
    values: Buffer<T>,
    validity: Option<Bitmap>,
}

impl<T: Element> NumericColumn<T> {
    #[verifier::type_invariant]
    spec fn aligned(&self) -> bool {
        self.validity matches Some(bitmap) ==> bitmap@.len() == self.values@.len()
    }

    /// The values, those under null slots with them.
    pub closed spec fn data(&self) -> Seq<T> {
        self.values@
    }

    /// The validity bits, if the column carries a bitmap.
    pub closed spec fn mask(&self) -> Option<Seq<bool>> {
        mask_of(self.validity)
    }

    /// A column the schema declares `NOT NULL`: values only, no bitmap.
    pub fn new_non_null(values: Buffer<T>) -> (column: Self)
        ensures
            column.data() == values@,
            column.mask() is None,
    {
        NumericColumn { values, validity: None }
    }

    /// A nullable column: values plus a validity bitmap of equal length.
    pub fn new_nullable(values: Buffer<T>, validity: Bitmap) -> (column: Self)
        requires
            values@.len() == validity@.len(),
        ensures
            column.data() == values@,
            column.mask() == Some(validity@),
    {
        NumericColumn { values, validity: Some(validity) }
    }

    /// Number of rows. A validity bitmap has one bit for each.
    pub fn len(&self) -> (len: usize)
        ensures
            len == self.data().len(),
            self.mask() matches Some(bits) ==> bits.len() == self.data().len(),
    {
        proof {
            use_type_invariant(self);
        }
        self.values.len()
    }

    /// Whether the column has zero rows.
    pub fn is_empty(&self) -> (empty: bool)
        ensures
            empty == (self.data().len() == 0),
    {
        self.values.is_empty()
    }

    /// The value buffer.
    pub fn values(&self) -> (values: &Buffer<T>)
        ensures
            values@ == self.data(),
    {
        &self.values
    }

    /// The validity bitmap: `None` exactly when the schema said `NOT NULL`.
    /// Where there is one, it has one bit per row.
    pub fn validity(&self) -> (validity: Option<&Bitmap>)
        ensures
            match validity {
                Some(bitmap) => self.mask() == Some(bitmap@) && bitmap@.len() == self.data().len(),
                None => self.mask() is None,
            },
    {
        proof {
            use_type_invariant(self);
        }
        match &self.validity {
            Some(bitmap) => Some(bitmap),
            None => None,
        }
    }

    /// Whether the row at `index` holds a value (always true without a
    /// bitmap).
    pub fn is_valid(&self, index: usize) -> (valid: bool)
        requires
            index < self.data().len(),
        ensures
            valid == valid_bits(self.mask(), self.data().len())[index as int],
    {
        proof {
            use_type_invariant(self);
        }
        match &self.validity {
            Some(bitmap) => bitmap.get(index),
            None => true,
        }
    }

    /// Number of null rows (zero without a bitmap).
    pub fn null_count(&self) -> (count: usize)
        ensures
            count == nulls(self.mask(), self.data().len()),
    {
        proof {
            use_type_invariant(self);
            lemma_nulls_partition(self.mask(), self.data().len());
        }
        match &self.validity {
            Some(bitmap) => bitmap.len() - bitmap.count_set(),
            None => 0,
        }
    }
}

impl<T: Element> Clone for NumericColumn<T> {
    fn clone(&self) -> (column: Self)
        ensures
            column.data() == self.data(),
            column.mask() == self.mask(),
    {
        proof {
            use_type_invariant(self);
        }
        NumericColumn {
            values: self.values.clone(),
            validity: match &self.validity {
                Some(bitmap) => Some(bitmap.clone()),
                None => None,
            },
        }
    }
}

/// Whether two optional bitmaps hold the same bits, or are both absent.
pub fn same_validity(a: &Option<Bitmap>, b: &Option<Bitmap>) -> (same: bool)
    ensures
        same == (mask_of(*a) == mask_of(*b)),
{
    match (a, b) {
        (Some(x), Some(y)) => *x == *y,
        (None, None) => true,
        _ => false,
    }
}

impl<T: Element> vstd::std_specs::cmp::PartialEqSpecImpl for NumericColumn<T> {
    open spec fn obeys_eq_spec() -> bool {
        T::obeys_eq_spec()
    }

    open spec fn eq_spec(&self, other: &Self) -> bool {
        same_elements(self.data(), other.data()) && self.mask() == other.mask()
    }
}

impl<T: Element> PartialEq for NumericColumn<T> {
    fn eq(&self, other: &Self) -> (equal: bool) {
        self.values == other.values && same_validity(&self.validity, &other.validity)
    }
}

} // verus!
