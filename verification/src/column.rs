//! The public column type, numeric or key and nothing else, and zero-copy
//! views over it.
//!
//! A column's physical type crosses format boundaries as an integer tag. The
//! registry is append-only and never renumbered: 0 is a float column, 1 an
//! integer column, 2 a key column.
//!
//! A view is an offset and a length over a column: the window of `n` rows
//! from row `o` is those rows of the column's own buffer, with no copy.
use crate::bitmap::{count_true, lemma_count_bounds, Bitmap};
use crate::buffer::{nulls, valid_bits, Element, NumericColumn};
use crate::float64::Float64;
use crate::key::{codes_in_range, keys_consistent, Dictionary, KeyColumn};
use vstd::prelude::*;

verus! {

/// The physical column types.
#[derive(Clone, Copy, PartialEq, Eq, Debug, Structural)]
pub enum ColumnType {
    /// Floating-point values.
    F64,
    /// Integer values (also the physical type under logical annotations).
    I64,
    /// Dictionary codes plus an interning table.
    Key,
}

impl ColumnType {
    /// The frozen serialization tag.
    pub open spec fn tag_spec(self) -> u8 {
        match self {
            ColumnType::F64 => 0,
            ColumnType::I64 => 1,
            ColumnType::Key => 2,
        }
    }

    /// This type's frozen serialization tag.
    pub fn tag(self) -> (tag: u8)
        ensures
            tag == self.tag_spec(),
    {
        match self {
            ColumnType::F64 => 0,
            ColumnType::I64 => 1,
            ColumnType::Key => 2,
        }
    }

    /// The type for a stored integer, if registered: the inverse of
    /// [`ColumnType::tag`], with an explicit `None` for an unknown tag.
    pub fn from_tag(tag: u8) -> (column_type: Option<ColumnType>)
        ensures
            match column_type {
                Some(t) => t.tag_spec() == tag,
                None => forall|t: ColumnType| #[trigger] t.tag_spec() != tag,
            },
    {
        match tag {
            0 => Some(ColumnType::F64),
            1 => Some(ColumnType::I64),
            2 => Some(ColumnType::Key),
            _ => None,
        }
    }
}

/// Distinct types have distinct tags, so reading a tag back gives the type
/// that was written.
pub proof fn lemma_tags_distinct(a: ColumnType, b: ColumnType)
    requires
        a.tag_spec() == b.tag_spec(),
    ensures
        a == b,
{
}

/// What a column holds: its values, which of them are valid, and for a key
/// column the values behind the codes.
pub enum ColumnModel {
    /// Floats.
    F64 {
        /// The values, those under null slots with them.
        floats: Seq<Float64>,
        /// The validity bits, if the column carries a bitmap.
        mask: Option<Seq<bool>>,
    },
    /// Integers.
    I64 {
        /// The values, those under null slots with them.
        integers: Seq<i64>,
        /// The validity bits, if the column carries a bitmap.
        mask: Option<Seq<bool>>,
    },
    /// Dictionary codes.
    Key {
        /// The codes, those under null slots with them.
        codes: Seq<u32>,
        /// The validity bits, if the column carries a bitmap.
        mask: Option<Seq<bool>>,
        /// The dictionary's values, in code order.
        words: Seq<Seq<char>>,
    },
}

impl ColumnModel {
    /// The number of rows.
    pub open spec fn rows(self) -> nat {
        match self {
            ColumnModel::F64 { floats, .. } => floats.len(),
            ColumnModel::I64 { integers, .. } => integers.len(),
            ColumnModel::Key { codes, .. } => codes.len(),
        }
    }

    /// The validity bits, if the column carries a bitmap.
    pub open spec fn mask(self) -> Option<Seq<bool>> {
        match self {
            ColumnModel::F64 { mask, .. } => mask,
            ColumnModel::I64 { mask, .. } => mask,
            ColumnModel::Key { mask, .. } => mask,
        }
    }

    /// The physical type.
    pub open spec fn kind(self) -> ColumnType {
        match self {
            ColumnModel::F64 { .. } => ColumnType::F64,
            ColumnModel::I64 { .. } => ColumnType::I64,
            ColumnModel::Key { .. } => ColumnType::Key,
        }
    }

    /// What every column keeps: one validity bit per row, and a value behind
    /// every code.
    pub open spec fn consistent(self) -> bool {
        &&& self.mask() matches Some(bits) ==> bits.len() == self.rows()
        &&& self matches ColumnModel::Key { codes, mask, words } ==> keys_consistent(
            codes,
            mask,
            words,
        )
    }
}

/// Equal by each type's own equality: floats by IEEE's, all else exactly.
pub open spec fn equal_models(a: ColumnModel, b: ColumnModel) -> bool {
    match (a, b) {
        (
            ColumnModel::F64 { floats: x, mask: m },
            ColumnModel::F64 { floats: y, mask: n },
        ) => equal_floats(x, y) && m == n,
        _ => a == b,
    }
}

/// Equal lengths, and equal floats by IEEE equality.
pub open spec fn equal_floats(a: Seq<Float64>, b: Seq<Float64>) -> bool {
    a.len() == b.len() && forall|i: int| 0 <= i < a.len() ==> (#[trigger] a[i]).same(b[i])
}

/// The numeric half of a column: one value buffer, of floats or integers.
#[derive(Debug)]
pub enum NumericData {
    /// A float column.
    F64(NumericColumn<Float64>),
    /// An integer column.
    I64(NumericColumn<i64>),
}

impl View for NumericData {
    type V = ColumnModel;

    open spec fn view(&self) -> ColumnModel {
        match self {
            NumericData::F64(column) => ColumnModel::F64 {
                floats: column.data(),
                mask: column.mask(),
            },
            NumericData::I64(column) => ColumnModel::I64 {
                integers: column.data(),
                mask: column.mask(),
            },
        }
    }
}

impl NumericData {
    /// Number of rows. Every column is consistent.
    pub fn len(&self) -> (len: usize)
        ensures
            len == self@.rows(),
            self@.consistent(),
    {
        match self {
            NumericData::F64(column) => column.len(),
            NumericData::I64(column) => column.len(),
        }
    }

    /// Whether the column has zero rows.
    pub fn is_empty(&self) -> (empty: bool)
        ensures
            empty == (self@.rows() == 0),
    {
        self.len() == 0
    }

    /// Number of null rows.
    pub fn null_count(&self) -> (count: usize)
        ensures
            count == nulls(self@.mask(), self@.rows()),
    {
        match self {
            NumericData::F64(column) => column.null_count(),
            NumericData::I64(column) => column.null_count(),
        }
    }

    /// The validity bitmap, if the column is nullable.
    pub fn validity(&self) -> (validity: Option<&Bitmap>)
        ensures
            match validity {
                Some(bitmap) => self@.mask() == Some(bitmap@) && bitmap@.len() == self@.rows(),
                None => self@.mask() is None,
            },
    {
        match self {
            NumericData::F64(column) => column.validity(),
            NumericData::I64(column) => column.validity(),
        }
    }
}

impl Clone for NumericData {
    fn clone(&self) -> (data: Self)
        ensures
            data@ == self@,
    {
        match self {
            NumericData::F64(column) => NumericData::F64(column.clone()),
            NumericData::I64(column) => NumericData::I64(column.clone()),
        }
    }
}

impl vstd::std_specs::cmp::PartialEqSpecImpl for NumericData {
    open spec fn obeys_eq_spec() -> bool {
        true
    }

    open spec fn eq_spec(&self, other: &Self) -> bool {
        equal_models(self@, other@)
    }
}

impl PartialEq for NumericData {
    fn eq(&self, other: &Self) -> (equal: bool) {
        match (self, other) {
            (NumericData::F64(a), NumericData::F64(b)) => *a == *b,
            (NumericData::I64(a), NumericData::I64(b)) => {
                let equal: bool = *a == *b;
                proof {
                    if equal {
                        assert(a.data() =~= b.data());
                    }
                }
                equal
            },
            _ => false,
        }
    }
}

/// A column: numeric or key. There is no third variant, by design.
pub enum Column {
    /// A value column, used in arithmetic, aggregation, windows.
    Numeric(NumericData),
    /// A label column: dictionary codes, used for filtering, grouping,
    /// joining, never arithmetic.
    Key(KeyColumn),
}

impl View for Column {
    type V = ColumnModel;

    open spec fn view(&self) -> ColumnModel {
        match self {
            Column::Numeric(data) => data@,
            Column::Key(column) => ColumnModel::Key {
                codes: column.data(),
                mask: column.mask(),
                words: column.words(),
            },
        }
    }
}

impl Column {
    /// Number of rows. Every column is consistent.
    pub fn len(&self) -> (len: usize)
        ensures
            len == self@.rows(),
            self@.consistent(),
    {
        match self {
            Column::Numeric(data) => data.len(),
            Column::Key(column) => column.len(),
        }
    }

    /// Whether the column has zero rows.
    pub fn is_empty(&self) -> (empty: bool)
        ensures
            empty == (self@.rows() == 0),
    {
        self.len() == 0
    }

    /// Number of null rows.
    pub fn null_count(&self) -> (count: usize)
        ensures
            count == nulls(self@.mask(), self@.rows()),
    {
        match self {
            Column::Numeric(data) => data.null_count(),
            Column::Key(column) => column.null_count(),
        }
    }

    /// This column's physical type.
    pub fn column_type(&self) -> (column_type: ColumnType)
        ensures
            column_type == self@.kind(),
    {
        match self {
            Column::Numeric(NumericData::F64(_)) => ColumnType::F64,
            Column::Numeric(NumericData::I64(_)) => ColumnType::I64,
            Column::Key(_) => ColumnType::Key,
        }
    }

    /// Whether the column carries a validity bitmap.
    pub fn has_bitmap(&self) -> (has: bool)
        ensures
            has == (self@.mask() is Some),
    {
        match self {
            Column::Numeric(data) => data.validity().is_some(),
            Column::Key(column) => column.validity().is_some(),
        }
    }
}

impl Clone for Column {
    fn clone(&self) -> (column: Self)
        ensures
            column@ == self@,
    {
        match self {
            Column::Numeric(data) => Column::Numeric(data.clone()),
            Column::Key(column) => Column::Key(column.clone()),
        }
    }
}

impl vstd::std_specs::cmp::PartialEqSpecImpl for Column {
    open spec fn obeys_eq_spec() -> bool {
        true
    }

    open spec fn eq_spec(&self, other: &Self) -> bool {
        equal_models(self@, other@)
    }
}

impl PartialEq for Column {
    fn eq(&self, other: &Self) -> (equal: bool) {
        match (self, other) {
            (Column::Numeric(a), Column::Numeric(b)) => *a == *b,
            (Column::Key(a), Column::Key(b)) => *a == *b,
            _ => false,
        }
    }
}

/// Whether `len` rows from row `offset` fit inside `outer` rows.
pub fn check_range(offset: usize, len: usize, outer: usize) -> (fits: bool)
    ensures
        fits == (offset + len <= outer),
{
    offset <= outer && len <= outer - offset
}

/// `len` of the bits, from position `offset`.
pub open spec fn window_of(bits: Seq<bool>, offset: int, len: nat) -> Seq<bool> {
    Seq::new(len, |i: int| bits[offset + i])
}

/// A window of a window is a window of the whole, with the offsets added.
pub proof fn lemma_nested_windows<T>(data: Seq<T>, a: int, b: int, c: int, d: int)
    requires
        0 <= a,
        0 <= c,
        0 <= d,
        c + d <= b,
        a + b <= data.len(),
    ensures
        data.subrange(a, a + b).subrange(c, c + d) == data.subrange(a + c, a + c + d),
{
    assert(data.subrange(a, a + b).subrange(c, c + d) =~= data.subrange(a + c, a + c + d));
}

/// A zero-copy window over a [`NumericColumn`]: an offset and a length, no
/// data.
#[derive(Debug)]
pub struct NumericView<'a, T: Element> {
    column: &'a NumericColumn<T>,
    /// Absolute row offset into the column.
    offset: usize,
    len: usize,
}

impl<T: Element> NumericColumn<T> {
    /// A zero-copy view of `len` rows starting at `offset`.
    pub fn view(&self, offset: usize, len: usize) -> (view: NumericView<'_, T>)
        requires
            offset + len <= self.data().len(),
        ensures
            view.window() == self.data().subrange(offset as int, offset + len),
            view.valid() == window_of(
                valid_bits(self.mask(), self.data().len()),
                offset as int,
                len as nat,
            ),
    {
        let rows: usize = self.len();
        assert(offset + len <= rows);
        NumericView { column: self, offset, len }
    }
}

impl<'a, T: Element> Clone for NumericView<'a, T> {
    fn clone(&self) -> (view: Self)
        ensures
            view == *self,
    {
        *self
    }
}

impl<'a, T: Element> Copy for NumericView<'a, T> {

}

impl<'a, T: Element> NumericView<'a, T> {
    #[verifier::type_invariant]
    spec fn inside(&self) -> bool {
        self.offset + self.len <= self.column.data().len() <= usize::MAX
    }

    /// The viewed values.
    pub closed spec fn window(&self) -> Seq<T> {
        self.column.data().subrange(self.offset as int, self.offset + self.len)
    }

    /// Which of the viewed rows hold a value.
    pub closed spec fn valid(&self) -> Seq<bool> {
        window_of(
            valid_bits(self.column.mask(), self.column.data().len()),
            self.offset as int,
            self.len as nat,
        )
    }

    /// Number of rows in the view.
    pub fn len(&self) -> (len: usize)
        ensures
            len == self.window().len(),
            len == self.valid().len(),
    {
        proof {
            use_type_invariant(self);
        }
        self.len
    }

    /// Whether the view covers zero rows.
    pub fn is_empty(&self) -> (empty: bool)
        ensures
            empty == (self.window().len() == 0),
    {
        proof {
            use_type_invariant(self);
        }
        self.len == 0
    }

    /// The viewed values: a plain slice of the column's own buffer.
    pub fn values(&self) -> (values: &'a [T])
        ensures
            values@ == self.window(),
    {
        proof {
            use_type_invariant(self);
        }
        vstd::slice::slice_subrange(
            self.column.values().as_slice(),
            self.offset,
            self.offset + self.len,
        )
    }

    /// Whether view row `index` holds a value.
    pub fn is_valid(&self, index: usize) -> (valid: bool)
        requires
            index < self.valid().len(),
        ensures
            valid == self.valid()[index as int],
    {
        proof {
            use_type_invariant(self);
        }
        self.column.is_valid(self.offset + index)
    }

    /// Number of null rows inside the view (counted; a view stores no bitmap
    /// of its own).
    pub fn null_count(&self) -> (count: usize)
        ensures
            count == self.valid().len() - count_true(self.valid()),
    {
        proof {
            use_type_invariant(self);
            lemma_count_bounds(self.valid());
        }
        if self.column.validity().is_none() {
            return 0;
        }
        let mut count: usize = 0;
        let mut index: usize = 0;
        assert(self.valid().take(0) =~= Seq::<bool>::empty());
        while index < self.len
            invariant
                index <= self.len,
                count <= index,
                self.valid().len() == self.len,
                count == index - count_true(self.valid().take(index as int)),
            decreases self.len - index,
        {
            assert(self.valid().take(index + 1).drop_last() =~= self.valid().take(index as int));
            if !self.is_valid(index) {
                count += 1;
            }
            index += 1;
        }
        assert(self.valid().take(self.len as int) =~= self.valid());
        count
    }

    /// A sub-view; `offset` is relative to this view.
    pub fn slice(&self, offset: usize, len: usize) -> (view: NumericView<'a, T>)
        requires
            offset + len <= self.window().len(),
        ensures
            view.window() == self.window().subrange(offset as int, offset + len),
            view.valid() == window_of(self.valid(), offset as int, len as nat),
    {
        proof {
            use_type_invariant(self);
        }
        let view = NumericView { column: self.column, offset: self.offset + offset, len };
        assert(view.window() =~= self.window().subrange(offset as int, offset + len));
        assert(view.valid() =~= window_of(self.valid(), offset as int, len as nat));
        view
    }
}

/// A zero-copy window over a [`KeyColumn`].
pub struct KeyView<'a> {
    column: &'a KeyColumn,
    /// Absolute row offset into the column.
    offset: usize,
    len: usize,
}

impl KeyColumn {
    /// A zero-copy view of `len` rows starting at `offset`.
    pub fn view(&self, offset: usize, len: usize) -> (view: KeyView<'_>)
        requires
            offset + len <= self.data().len(),
        ensures
            view.window() == self.data().subrange(offset as int, offset + len),
            view.valid() == window_of(
                valid_bits(self.mask(), self.data().len()),
                offset as int,
                len as nat,
            ),
            view.words() == self.words(),
    {
        let rows: usize = self.len();
        assert(offset + len <= rows);
        KeyView { column: self, offset, len }
    }
}

impl<'a> Clone for KeyView<'a> {
    fn clone(&self) -> (view: Self)
        ensures
            view == *self,
    {
        *self
    }
}

impl<'a> Copy for KeyView<'a> {

}

impl<'a> KeyView<'a> {
    #[verifier::type_invariant]
    spec fn inside(&self) -> bool {
        self.offset + self.len <= self.column.data().len() <= usize::MAX
    }

    /// The viewed codes.
    pub closed spec fn window(&self) -> Seq<u32> {
        self.column.data().subrange(self.offset as int, self.offset + self.len)
    }

    /// Which of the viewed rows hold a value.
    pub closed spec fn valid(&self) -> Seq<bool> {
        window_of(
            valid_bits(self.column.mask(), self.column.data().len()),
            self.offset as int,
            self.len as nat,
        )
    }

    /// The dictionary's values, in code order.
    pub closed spec fn words(&self) -> Seq<Seq<char>> {
        self.column.words()
    }

    /// Number of rows in the view.
    pub fn len(&self) -> (len: usize)
        ensures
            len == self.window().len(),
            len == self.valid().len(),
    {
        proof {
            use_type_invariant(self);
        }
        self.len
    }

    /// Whether the view covers zero rows.
    pub fn is_empty(&self) -> (empty: bool)
        ensures
            empty == (self.window().len() == 0),
    {
        proof {
            use_type_invariant(self);
        }
        self.len == 0
    }

    /// The viewed codes: a plain slice of the column's own buffer.
    pub fn codes(&self) -> (codes: &'a [u32])
        ensures
            codes@ == self.window(),
            codes_in_range(codes@, self.words().len()),
    {
        proof {
            use_type_invariant(self);
        }
        vstd::slice::slice_subrange(
            self.column.codes().as_slice(),
            self.offset,
            self.offset + self.len,
        )
    }

    /// The dictionary the codes index into (views share the column's).
    pub fn dictionary(&self) -> (dictionary: &'a Dictionary)
        ensures
            dictionary@ == self.words(),
    {
        self.column.dictionary()
    }

    /// Whether view row `index` holds a value.
    pub fn is_valid(&self, index: usize) -> (valid: bool)
        requires
            index < self.valid().len(),
        ensures
            valid == self.valid()[index as int],
    {
        proof {
            use_type_invariant(self);
        }
        self.column.is_valid(self.offset + index)
    }

    /// A sub-view; `offset` is relative to this view.
    pub fn slice(&self, offset: usize, len: usize) -> (view: KeyView<'a>)
        requires
            offset + len <= self.window().len(),
        ensures
            view.window() == self.window().subrange(offset as int, offset + len),
            view.valid() == window_of(self.valid(), offset as int, len as nat),
            view.words() == self.words(),
    {
        proof {
            use_type_invariant(self);
        }
        let view = KeyView { column: self.column, offset: self.offset + offset, len };
        assert(view.window() =~= self.window().subrange(offset as int, offset + len));
        assert(view.valid() =~= window_of(self.valid(), offset as int, len as nat));
        view
    }
}

} // verus!
