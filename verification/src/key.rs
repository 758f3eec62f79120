//! Key columns: dictionary codes per row plus the interning table of
//! distinct values.
//!
//! A key is a label, used for filtering, grouping and joining, never
//! arithmetic. Each distinct value is interned once into a [`Dictionary`]
//! and every row stores only its code. The dictionary holds its values in
//! Arrow's Utf8 layout: offsets plus a byte buffer.
use crate::bitmap::Bitmap;
use crate::buffer::{
    lemma_nulls_partition, mask_of, nulls, same_validity, valid_bits, Buffer,
};
use crate::sealed::make_unique;
use std::sync::Arc;
use vstd::hash_map::StringHashMap;
use vstd::prelude::*;
use vstd::utf8::{decode_utf8, encode_utf8, valid_utf8};

verus! {

/// The UTF-8 bytes of all values, one after the other.
pub open spec fn encoded(values: Seq<Seq<char>>) -> Seq<u8>
    decreases values.len(),
{
    if values.len() == 0 {
        Seq::empty()
    } else {
        encoded(values.drop_last()) + encode_utf8(values.last())
    }
}

/// Arrow's Utf8 layout of `values`: the concatenated bytes, and for each
/// value where it starts, with the total length at the end.
pub open spec fn utf8_layout(offsets: Seq<i32>, bytes: Seq<u8>, values: Seq<Seq<char>>) -> bool {
    &&& bytes == encoded(values)
    &&& offsets.len() == values.len() + 1
    &&& forall|k: int|
        0 <= k <= values.len() ==> #[trigger] offsets[k] == encoded(values.take(k)).len()
}

/// The values after interning one more: appended if it was not there.
pub open spec fn interned(values: Seq<Seq<char>>, value: Seq<char>) -> Seq<Seq<char>> {
    if values.contains(value) {
        values
    } else {
        values.push(value)
    }
}

/// The values after interning a whole sequence, in order.
pub open spec fn intern_all(rows: Seq<Seq<char>>) -> Seq<Seq<char>>
    decreases rows.len(),
{
    if rows.len() == 0 {
        Seq::empty()
    } else {
        interned(intern_all(rows.drop_last()), rows.last())
    }
}

/// Whether interning `value` keeps the bytes within the offsets' range.
pub open spec fn has_room(values: Seq<Seq<char>>, value: Seq<char>) -> bool {
    values.contains(value) || encoded(values).len() + encode_utf8(value).len() <= i32::MAX
}

/// `std::str::from_utf8`: the text of some bytes, which is there exactly
/// when they are valid UTF-8 and is then what they decode to.
#[verifier::external_body]
pub(crate) fn text_of(bytes: &[u8]) -> (text: Option<&str>)
    ensures
        match text {
            Some(s) => valid_utf8(bytes@) && s@ == decode_utf8(bytes@),
            None => !valid_utf8(bytes@),
        },
{
    std::str::from_utf8(bytes).ok()
}

/// A prefix's bytes are a prefix of the bytes, and each value's bytes follow
/// those of the values before it.
proof fn lemma_encoded_prefix(values: Seq<Seq<char>>, k: int)
    requires
        0 <= k <= values.len(),
    ensures
        encoded(values.take(k)).len() <= encoded(values).len(),
        encoded(values).take(encoded(values.take(k)).len() as int) == encoded(values.take(k)),
    decreases values.len() - k,
{
    if k == values.len() {
        assert(values.take(k) =~= values);
        assert(encoded(values).take(encoded(values).len() as int) =~= encoded(values));
    } else {
        lemma_encoded_prefix(values.drop_last(), k);
        assert(values.drop_last().take(k) =~= values.take(k));
        assert(encoded(values).take(encoded(values.take(k)).len() as int) =~= encoded(
            values.take(k),
        ));
    }
}

/// The bytes of one value, found by its offsets.
pub proof fn lemma_value_bytes(values: Seq<Seq<char>>, k: int)
    requires
        0 <= k < values.len(),
    ensures
        encoded(values.take(k)).len() <= encoded(values.take(k + 1)).len() <= encoded(values).len(),
        encoded(values).subrange(
            encoded(values.take(k)).len() as int,
            encoded(values.take(k + 1)).len() as int,
        ) == encode_utf8(values[k]),
{
    let next = values.take(k + 1);
    assert(next.drop_last() =~= values.take(k));
    assert(next.last() == values[k]);
    lemma_encoded_prefix(values, k + 1);
    let (start, end) = (encoded(values.take(k)).len() as int, encoded(next).len() as int);
    assert(encoded(values).subrange(start, end) =~= encoded(values).take(end).subrange(
        start,
        end,
    ));
    assert(encoded(next).subrange(start, end) =~= encode_utf8(values[k]));
}

/// Offsets never decrease, start at zero and end at the byte count.
pub proof fn lemma_offsets_monotone(values: Seq<Seq<char>>, i: int, j: int)
    requires
        0 <= i <= j <= values.len(),
    ensures
        encoded(values.take(0)).len() == 0,
        encoded(values.take(i)).len() <= encoded(values.take(j)).len(),
        encoded(values.take(values.len() as int)) == encoded(values),
{
    lemma_encoded_prefix(values.take(j), i);
    assert(values.take(j).take(i) =~= values.take(i));
    assert(values.take(values.len() as int) =~= values);
}

/// An empty value is the only one without bytes.
proof fn lemma_encode_nonempty(value: Seq<char>)
    requires
        value.len() > 0,
    ensures
        encode_utf8(value).len() > 0,
{
    if encode_utf8(value).len() == 0 {
        vstd::utf8::encode_utf8_decode_utf8(value);
        assert(encode_utf8(value) =~= Seq::<u8>::empty());
        assert(decode_utf8(Seq::<u8>::empty()) =~= Seq::<char>::empty());
    }
}

/// Distinct values need at least one byte each, but for the empty one: the
/// code space cannot run out before the offsets do.
pub proof fn lemma_distinct_bound(values: Seq<Seq<char>>)
    requires
        values.no_duplicates(),
    ensures
        values.len() <= encoded(values).len() + 1,
        !values.contains(Seq::empty()) ==> values.len() <= encoded(values).len(),
    decreases values.len(),
{
    if values.len() > 0 {
        let rest = values.drop_last();
        assert(rest.no_duplicates()) by {
            assert forall|i: int, j: int|
                0 <= i < rest.len() && 0 <= j < rest.len() && i != j implies rest[i] != rest[j] by {
                assert(values[i] != values[j]);
            }
        }
        lemma_distinct_bound(rest);
        if values.last().len() > 0 {
            lemma_encode_nonempty(values.last());
            if values.contains(Seq::empty()) {
            } else {
                assert(!rest.contains(Seq::empty())) by {
                    if rest.contains(Seq::empty()) {
                        let i = choose|i: int| 0 <= i < rest.len() && rest[i] == Seq::<char>::empty();
                        assert(values[i] == Seq::<char>::empty());
                    }
                }
            }
        } else {
            assert(values.last() =~= Seq::<char>::empty());
            assert(values.contains(Seq::empty())) by {
                assert(values[values.len() - 1] == Seq::<char>::empty());
            }
            if rest.contains(Seq::empty()) {
                let i = choose|i: int| 0 <= i < rest.len() && rest[i] == Seq::<char>::empty();
                assert(values[i] == values[values.len() - 1]);
            }
        }
    }
}

/// The bytes of a dictionary determine its values.
proof fn lemma_layout_determines(
    offsets: Seq<i32>,
    bytes: Seq<u8>,
    a: Seq<Seq<char>>,
    b: Seq<Seq<char>>,
)
    requires
        utf8_layout(offsets, bytes, a),
        utf8_layout(offsets, bytes, b),
    ensures
        a == b,
{
    assert forall|k: int| 0 <= k < a.len() implies a[k] == b[k] by {
        lemma_value_bytes(a, k);
        lemma_value_bytes(b, k);
        assert(offsets[k] == encoded(a.take(k)).len() && offsets[k + 1] == encoded(
            a.take(k + 1),
        ).len());
        assert(offsets[k] == encoded(b.take(k)).len() && offsets[k + 1] == encoded(
            b.take(k + 1),
        ).len());
        vstd::utf8::encode_utf8_decode_utf8(a[k]);
        vstd::utf8::encode_utf8_decode_utf8(b[k]);
    }
    assert(a =~= b);
}

/// Interning a value that is there changes nothing; interning it again never
/// does. Values that were there keep their codes.
pub proof fn lemma_intern_idempotent_and_stable(values: Seq<Seq<char>>, value: Seq<char>)
    ensures
        interned(interned(values, value), value) == interned(values, value),
        values.len() <= interned(values, value).len(),
        forall|code: int|
            0 <= code < values.len() ==> #[trigger] interned(values, value)[code] == values[code],
        interned(values, value).contains(value),
{
    if !values.contains(value) {
        assert(values.push(value)[values.len() as int] == value);
    }
}

/// Interning keeps the values distinct.
pub proof fn lemma_interned_distinct(values: Seq<Seq<char>>, value: Seq<char>)
    requires
        values.no_duplicates(),
    ensures
        interned(values, value).no_duplicates(),
{
    let after = interned(values, value);
    assert forall|i: int, j: int|
        0 <= i < after.len() && 0 <= j < after.len() && i != j implies after[i] != after[j] by {
        if i < values.len() && j < values.len() {
            assert(values[i] != values[j]);
        } else if i < values.len() {
            assert(values.contains(values[i]));
        } else if j < values.len() {
            assert(values.contains(values[j]));
        }
    }
}

/// Interning a sequence of rows gives exactly their distinct values, each
/// row's among them.
pub proof fn lemma_intern_all(rows: Seq<Seq<char>>)
    ensures
        intern_all(rows).no_duplicates(),
        forall|i: int| 0 <= i < rows.len() ==> intern_all(rows).contains(#[trigger] rows[i]),
        forall|code: int|
            0 <= code < intern_all(rows).len() ==> rows.contains(#[trigger] intern_all(rows)[code]),
    decreases rows.len(),
{
    if rows.len() > 0 {
        let rest = rows.drop_last();
        lemma_intern_all(rest);
        lemma_interned_distinct(intern_all(rest), rows.last());
        lemma_intern_idempotent_and_stable(intern_all(rest), rows.last());
        assert forall|i: int| 0 <= i < rows.len() implies intern_all(rows).contains(
            #[trigger] rows[i],
        ) by {
            if i < rest.len() {
                assert(intern_all(rest).contains(rest[i]));
                let code = choose|code: int|
                    0 <= code < intern_all(rest).len() && intern_all(rest)[code] == rest[i];
                assert(intern_all(rows)[code] == rows[i]);
            }
        }
        assert forall|code: int| 0 <= code < intern_all(rows).len() implies rows.contains(
            #[trigger] intern_all(rows)[code],
        ) by {
            if code < intern_all(rest).len() {
                assert(intern_all(rows)[code] == intern_all(rest)[code]);
                assert(rest.contains(intern_all(rest)[code]));
                let i = choose|i: int|
                    0 <= i < rest.len() && rest[i] == intern_all(rest)[code];
                assert(rows[i] == intern_all(rows)[code]);
            } else {
                assert(rows[rows.len() - 1] == intern_all(rows)[code]);
            }
        }
    }
}

/// Interning only appends: a prefix's values are a prefix of the values.
pub proof fn lemma_intern_all_grows(rows: Seq<Seq<char>>, k: int)
    requires
        0 <= k <= rows.len(),
    ensures
        intern_all(rows.take(k)).len() <= intern_all(rows).len(),
        intern_all(rows).take(intern_all(rows.take(k)).len() as int) == intern_all(rows.take(k)),
        encoded(intern_all(rows.take(k))).len() <= encoded(intern_all(rows)).len(),
    decreases rows.len() - k,
{
    if k == rows.len() {
        assert(rows.take(k) =~= rows);
        assert(intern_all(rows).take(intern_all(rows).len() as int) =~= intern_all(rows));
    } else {
        let rest = rows.drop_last();
        lemma_intern_all_grows(rest, k);
        assert(rest.take(k) =~= rows.take(k));
        lemma_intern_idempotent_and_stable(intern_all(rest), rows.last());
        assert(intern_all(rows).take(intern_all(rows.take(k)).len() as int) =~= intern_all(
            rest,
        ).take(intern_all(rows.take(k)).len() as int));
        lemma_encoded_prefix(intern_all(rows), intern_all(rows.take(k)).len() as int);
    }
}

/// An interning table of distinct string values, in Arrow Utf8 layout.
///
/// Codes are assigned densely in first-seen order: the first distinct value
/// gets code 0, the next code 1, and so on. Once assigned, a code never
/// changes: later interning only appends.
pub struct Dictionary {
    /// Arrow Utf8 offsets: one more than there are values; value `code`
    /// spans the bytes from `offsets[code]` to `offsets[code + 1]`.
    offsets: Arc<Vec<i32>>,
    /// Concatenated UTF-8 bytes of all distinct values.
    bytes: Arc<Vec<u8>>,
    /// From value to code, for interning.
    index: StringHashMap<u32>,
    /// The values, in code order.
    values: Ghost<Seq<Seq<char>>>,
}

impl View for Dictionary {
    type V = Seq<Seq<char>>;

    closed spec fn view(&self) -> Seq<Seq<char>> {
        self.values@
    }
}

/// The index maps each value, and nothing else, to its code.
spec fn indexes(index: Map<Seq<char>, u32>, values: Seq<Seq<char>>) -> bool {
    &&& forall|v: Seq<char>| #[trigger] index.contains_key(v) <==> values.contains(v)
    &&& forall|code: int|
        0 <= code < values.len() ==> index[#[trigger] values[code]] == code
}

impl Dictionary {
    #[verifier::type_invariant]
    spec fn consistent(&self) -> bool {
        &&& utf8_layout(self.offsets@, self.bytes@, self.values@)
        &&& self.values@.no_duplicates()
        &&& indexes(self.index@, self.values@)
        &&& self.bytes@.len() <= i32::MAX
    }

    /// An empty dictionary.
    pub fn new() -> (dictionary: Self)
        ensures
            dictionary@ == Seq::<Seq<char>>::empty(),
    {
        let offsets: Vec<i32> = vec![0i32];
        let ghost none = Seq::<Seq<char>>::empty();
        assert(none.take(0) =~= none);
        assert(encoded(none) =~= Seq::<u8>::empty());
        Dictionary {
            offsets: Arc::new(offsets),
            bytes: Arc::new(Vec::new()),
            index: StringHashMap::new(),
            values: Ghost(none),
        }
    }

    /// Returns the code for `value`, interning it if unseen.
    ///
    /// The code is that of the value, and the values are the old ones, with
    /// this one appended if it was not among them.
    pub fn intern(&mut self, value: &str) -> (code: u32)
        requires
            has_room(old(self)@, value@),
        ensures
            final(self)@ == interned(old(self)@, value@),
            code < final(self)@.len(),
            final(self)@[code as int] == value@,
    {
        proof {
            use_type_invariant(&*self);
        }
        let found: Option<u32> = match self.index.get(value) {
            Some(code) => Some(*code),
            None => None,
        };
        if let Some(code) = found {
            proof {
                let k = choose|k: int| 0 <= k < self.values@.len() && self.values@[k] == value@;
                assert(self.index@[self.values@[k]] == k);
            }
            return code;
        }
        let ghost before = self.values@;
        let mut taken = Dictionary::new();
        std::mem::swap(self, &mut taken);
        let Dictionary {
            offsets: mut shared_offsets,
            bytes: mut shared_bytes,
            index: mut index,
            values: _,
        } = taken;
        let offsets: &mut Vec<i32> = make_unique(&mut shared_offsets);
        let bytes: &mut Vec<u8> = make_unique(&mut shared_bytes);
        proof {
            lemma_distinct_bound(before);
        }
        let code: u32 = (offsets.len() - 1) as u32;
        let piece: &[u8] = value.as_bytes();
        let ghost old_bytes = bytes@;
        bytes.extend_from_slice(piece);
        assert(bytes@ =~= old_bytes + encode_utf8(value@));
        let end: i32 = bytes.len() as i32;
        offsets.push(end);
        index.insert(value.to_owned(), code);
        let ghost after = before.push(value@);
        proof {
            assert(after.drop_last() =~= before);
            assert(bytes@ == encoded(after));
            assert forall|k: int| 0 <= k <= after.len() implies #[trigger] offsets@[k] == encoded(
                after.take(k),
            ).len() by {
                if k < after.len() {
                    assert(after.take(k) =~= before.take(k));
                } else {
                    assert(after.take(k) =~= after);
                }
            }
            lemma_interned_distinct(before, value@);
            assert forall|v: Seq<char>| #[trigger] index@.contains_key(v) <==> after.contains(
                v,
            ) by {
                if before.contains(v) {
                    let k = choose|k: int| 0 <= k < before.len() && before[k] == v;
                    assert(after[k] == v);
                }
                assert(after[before.len() as int] == value@);
            }
            assert forall|c: int| 0 <= c < after.len() implies index@[#[trigger] after[c]]
                == c by {
                if c < before.len() {
                    assert(after[c] == before[c]);
                    assert(before.contains(before[c]));
                }
            }
        }
        *self = Dictionary {
            offsets: shared_offsets,
            bytes: shared_bytes,
            index,
            values: Ghost(after),
        };
        code
    }

    /// The code for `value`, if it has been interned.
    pub fn code_of(&self, value: &str) -> (code: Option<u32>)
        ensures
            match code {
                Some(c) => c < self@.len() && self@[c as int] == value@,
                None => !self@.contains(value@),
            },
    {
        proof {
            use_type_invariant(self);
        }
        match self.index.get(value) {
            Some(code) => {
                proof {
                    let k = choose|k: int| 0 <= k < self@.len() && self@[k] == value@;
                    assert(self.index@[self@[k]] == k);
                }
                Some(*code)
            },
            None => None,
        }
    }

    /// The value for `code`.
    pub fn value(&self, code: u32) -> (value: &str)
        requires
            code < self@.len(),
        ensures
            value@ == self@[code as int],
    {
        proof {
            use_type_invariant(self);
            lemma_value_bytes(self@, code as int);
            assert(self.offsets@[code as int] == encoded(self@.take(code as int)).len());
            assert(self.offsets@[code + 1] == encoded(self@.take(code + 1)).len());
            vstd::utf8::encode_utf8_valid_utf8(self@[code as int]);
            vstd::utf8::encode_utf8_decode_utf8(self@[code as int]);
        }
        let i: usize = code as usize;
        assert(i + 1 < self.offsets.len());
        let start: usize = self.offsets[i] as usize;
        let end: usize = self.offsets[i + 1] as usize;
        match text_of(vstd::slice::slice_subrange(self.bytes.as_slice(), start, end)) {
            Some(text) => text,
            None => "",
        }
    }

    /// Number of distinct values. They are distinct, and within the offsets'
    /// range.
    pub fn len(&self) -> (len: usize)
        ensures
            len == self@.len(),
            dictionary_valid(self@),
    {
        proof {
            use_type_invariant(self);
        }
        self.offsets.len() - 1
    }

    /// Whether no values have been interned.
    pub fn is_empty(&self) -> (empty: bool)
        ensures
            empty == (self@.len() == 0),
    {
        self.len() == 0
    }

    /// The Arrow Utf8 offsets buffer (one more entry than there are values).
    pub fn offsets(&self) -> (offsets: &[i32])
        ensures
            utf8_layout(offsets@, encoded(self@), self@),
    {
        proof {
            use_type_invariant(self);
        }
        self.offsets.as_slice()
    }

    /// The concatenated UTF-8 value bytes.
    pub fn bytes(&self) -> (bytes: &[u8])
        ensures
            bytes@ == encoded(self@),
            bytes@.len() <= i32::MAX,
    {
        proof {
            use_type_invariant(self);
        }
        self.bytes.as_slice()
    }

    /// A handle to the offsets buffer, which is shared and not copied.
    pub(crate) fn shared_offsets(&self) -> (offsets: Arc<Vec<i32>>)
        ensures
            utf8_layout(offsets@, encoded(self@), self@),
    {
        proof {
            use_type_invariant(self);
        }
        self.offsets.clone()
    }

    /// A handle to the value bytes, which are shared and not copied.
    pub(crate) fn shared_bytes(&self) -> (bytes: Arc<Vec<u8>>)
        ensures
            bytes@ == encoded(self@),
            bytes@.len() <= i32::MAX,
    {
        proof {
            use_type_invariant(self);
        }
        self.bytes.clone()
    }
}

impl Default for Dictionary {
    fn default() -> (dictionary: Self)
        ensures
            dictionary@ == Seq::<Seq<char>>::empty(),
    {
        Dictionary::new()
    }
}

impl Clone for Dictionary {
    fn clone(&self) -> (dictionary: Self)
        ensures
            dictionary@ == self@,
    {
        proof {
            use_type_invariant(self);
        }
        let mut copy = Dictionary::new();
        let mut code: usize = 0;
        let len: usize = self.len();
        proof {
            lemma_distinct_bound(self@);
        }
        assert(copy@ =~= self@.take(0));
        while code < len
            invariant
                code <= len,
                len == self@.len(),
                len <= u32::MAX,
                self@.no_duplicates(),
                encoded(self@).len() <= i32::MAX,
                copy@ == self@.take(code as int),
            decreases len - code,
        {
            let value: &str = self.value(code as u32);
            proof {
                let k = code as int;
                lemma_offsets_monotone(self@, k + 1, self@.len() as int);
                assert(self@.take(k + 1).drop_last() =~= self@.take(k));
                assert(self@.take(k + 1).last() == value@);
                assert(self@.take(k + 1) =~= self@.take(k).push(value@));
                if self@.take(k).contains(value@) {
                    let j = choose|j: int| 0 <= j < k && self@.take(k)[j] == value@;
                    assert(self@[j] == self@[k]);
                }
            }
            copy.intern(value);
            code += 1;
        }
        assert(self@.take(len as int) =~= self@);
        copy
    }
}

impl vstd::std_specs::cmp::PartialEqSpecImpl for Dictionary {
    open spec fn obeys_eq_spec() -> bool {
        true
    }

    open spec fn eq_spec(&self, other: &Self) -> bool {
        self@ == other@
    }
}

impl PartialEq for Dictionary {
    fn eq(&self, other: &Self) -> (equal: bool) {
        proof {
            use_type_invariant(self);
            use_type_invariant(other);
        }
        let equal: bool = *self.offsets == *other.offsets && *self.bytes == *other.bytes;
        proof {
            if equal {
                assert(self.offsets@ =~= other.offsets@);
                assert(self.bytes@ =~= other.bytes@);
                lemma_layout_determines(self.offsets@, self.bytes@, self@, other@);
            } else if self@ == other@ {
                assert(self.bytes@ =~= other.bytes@);
                assert forall|k: int| 0 <= k < self.offsets@.len() implies self.offsets@[k]
                    == other.offsets@[k] by {
                    assert(self.offsets@[k] == encoded(self@.take(k)).len());
                }
                assert(self.offsets@ =~= other.offsets@);
                assert(vstd::std_specs::cmp::PartialEqSpec::eq_spec(
                    &*self.offsets,
                    &*other.offsets,
                ));
                assert(vstd::std_specs::cmp::PartialEqSpec::eq_spec(&*self.bytes, &*other.bytes));
            }
        }
        equal
    }
}

impl Eq for Dictionary {

}

/// Every code has a value.
pub open spec fn codes_in_range(codes: Seq<u32>, values: nat) -> bool {
    forall|i: int| 0 <= i < codes.len() ==> #[trigger] codes[i] < values
}

/// What every dictionary keeps: distinct values, within the offsets' range.
pub open spec fn dictionary_valid(words: Seq<Seq<char>>) -> bool {
    words.no_duplicates() && encoded(words).len() <= i32::MAX
}

/// What every key column keeps: one validity bit per row, and a value behind
/// every code.
pub open spec fn keys_consistent(
    codes: Seq<u32>,
    mask: Option<Seq<bool>>,
    words: Seq<Seq<char>>,
) -> bool {
    &&& mask matches Some(bits) ==> bits.len() == codes.len()
    &&& codes_in_range(codes, words.len())
    &&& dictionary_valid(words)
}

/// The texts of some string slices.
pub open spec fn texts(values: Seq<&str>) -> Seq<Seq<char>> {
    values.map_values(|value: &str| value@)
}

/// A key column: codes per row, a validity bitmap when the schema declares
/// the column nullable, and the dictionary the codes index into.
///
/// A `KeyColumn` never holds a dangling code, not even under a null slot.
pub struct KeyColumn {
    codes: Buffer<u32>,
    validity: Option<Bitmap>,
    dictionary: Dictionary,
}

impl KeyColumn {
    #[verifier::type_invariant]
    spec fn bound(&self) -> bool {
        &&& self.validity matches Some(bitmap) ==> bitmap@.len() == self.codes@.len()
        &&& codes_in_range(self.codes@, self.dictionary@.len())
    }

    /// The codes, those under null slots with them.
    pub closed spec fn data(&self) -> Seq<u32> {
        self.codes@
    }

    /// The validity bits, if the column carries a bitmap.
    pub closed spec fn mask(&self) -> Option<Seq<bool>> {
        mask_of(self.validity)
    }

    /// The dictionary's values, in code order.
    pub closed spec fn words(&self) -> Seq<Seq<char>> {
        self.dictionary@
    }

    /// The text of a row, or `None` where it is null.
    pub open spec fn row(&self, index: int) -> Option<Seq<char>> {
        if valid_bits(self.mask(), self.data().len())[index] {
            Some(self.words()[self.data()[index] as int])
        } else {
            None
        }
    }

    /// A `NOT NULL` key column from codes and their dictionary.
    pub fn new_non_null(codes: Buffer<u32>, dictionary: Dictionary) -> (column: Self)
        requires
            codes_in_range(codes@, dictionary@.len()),
        ensures
            column.data() == codes@,
            column.mask() is None,
            column.words() == dictionary@,
    {
        KeyColumn { codes, validity: None, dictionary }
    }

    /// A nullable key column. The code under a null slot is unspecified but
    /// must still be in range.
    pub fn new_nullable(codes: Buffer<u32>, validity: Bitmap, dictionary: Dictionary) -> (column:
        Self)
        requires
            codes@.len() == validity@.len(),
            codes_in_range(codes@, dictionary@.len()),
        ensures
            column.data() == codes@,
            column.mask() == Some(validity@),
            column.words() == dictionary@,
    {
        KeyColumn { codes, validity: Some(validity), dictionary }
    }

    /// Interns each value in order, building a `NOT NULL` column and its
    /// dictionary together. Every row reads back as its value, and the
    /// dictionary holds the distinct values in first-seen order.
    pub fn from_values(values: &[&str]) -> (column: Self)
        requires
            encoded(intern_all(texts(values@))).len() <= i32::MAX,
        ensures
            column.mask() is None,
            column.words() == intern_all(texts(values@)),
            column.data().len() == values@.len(),
            forall|i: int|
                0 <= i < values@.len() ==> #[trigger] column.row(i) == Some(values@[i]@),
    {
        let mut dictionary = Dictionary::new();
        let mut codes: Vec<u32> = Vec::new();
        let mut index: usize = 0;
        let ghost rows = texts(values@);
        assert(rows.take(0) =~= Seq::<Seq<char>>::empty());
        while index < values.len()
            invariant
                index <= values@.len(),
                rows == texts(values@),
                encoded(intern_all(rows)).len() <= i32::MAX,
                dictionary@ == intern_all(rows.take(index as int)),
                codes@.len() == index,
                codes_in_range(codes@, dictionary@.len()),
                forall|i: int|
                    0 <= i < index ==> dictionary@[(#[trigger] codes@[i]) as int] == values@[i]@,
            decreases values@.len() - index,
        {
            let ghost before = dictionary@;
            proof {
                let next = rows.take(index + 1);
                assert(next.drop_last() =~= rows.take(index as int));
                assert(next.last() == values@[index as int]@);
                lemma_intern_all_grows(rows, index + 1);
                lemma_intern_idempotent_and_stable(before, values@[index as int]@);
                assert(before.push(values@[index as int]@).drop_last() =~= before);
            }
            let code: u32 = dictionary.intern(values[index]);
            codes.push(code);
            index += 1;
        }
        assert(rows.take(values@.len() as int) =~= rows);
        KeyColumn { codes: Buffer::from_vec(codes), validity: None, dictionary }
    }

    /// The first code, in row order, that has no value in the dictionary: one
    /// under a null slot counts too. Codes without one can make a column.
    pub fn validate_codes(codes: &Buffer<u32>, dictionary: &Dictionary) -> (dangling: Option<u32>)
        ensures
            match dangling {
                Some(code) => code >= dictionary@.len() && exists|i: int|
                    0 <= i < codes@.len() && #[trigger] codes@[i] == code && codes_in_range(
                        codes@.take(i),
                        dictionary@.len(),
                    ),
                None => codes_in_range(codes@, dictionary@.len()),
            },
    {
        let slice: &[u32] = codes.as_slice();
        let len: usize = dictionary.len();
        let mut index: usize = 0;
        while index < slice.len()
            invariant
                index <= slice@.len(),
                slice@ == codes@,
                len == dictionary@.len(),
                codes_in_range(codes@.take(index as int), dictionary@.len()),
            decreases slice@.len() - index,
        {
            if slice[index] as usize >= len {
                return Some(slice[index]);
            }
            assert(codes@.take(index + 1) =~= codes@.take(index as int).push(
                codes@[index as int],
            ));
            index += 1;
        }
        assert(codes@.take(slice@.len() as int) =~= codes@);
        None
    }

    /// Number of rows. Every key column is consistent.
    pub fn len(&self) -> (len: usize)
        ensures
            len == self.data().len(),
            keys_consistent(self.data(), self.mask(), self.words()),
    {
        proof {
            use_type_invariant(self);
            use_type_invariant(&self.dictionary);
        }
        self.codes.len()
    }

    /// Whether the column has zero rows.
    pub fn is_empty(&self) -> (empty: bool)
        ensures
            empty == (self.data().len() == 0),
    {
        self.codes.is_empty()
    }

    /// The per-row code buffer. Every code has a value in the dictionary.
    pub fn codes(&self) -> (codes: &Buffer<u32>)
        ensures
            codes@ == self.data(),
            codes_in_range(codes@, self.words().len()),
    {
        proof {
            use_type_invariant(self);
        }
        &self.codes
    }

    /// The validity bitmap: `None` exactly when the schema said `NOT NULL`.
    /// Where there is one, it has one bit per row.
    pub fn validity(&self) -> (validity: Option<&Bitmap>)
        ensures
            match validity {
                Some(bitmap) => self.mask() == Some(bitmap@) && bitmap@.len() == self.data().len(),
                None => self.mask() is None,
            },
    {
        proof {
            use_type_invariant(self);
        }
        match &self.validity {
            Some(bitmap) => Some(bitmap),
            None => None,
        }
    }

    /// The dictionary the codes index into.
    pub fn dictionary(&self) -> (dictionary: &Dictionary)
        ensures
            dictionary@ == self.words(),
    {
        &self.dictionary
    }

    /// Whether the row at `index` holds a value.
    pub fn is_valid(&self, index: usize) -> (valid: bool)
        requires
            index < self.data().len(),
        ensures
            valid == valid_bits(self.mask(), self.data().len())[index as int],
    {
        proof {
            use_type_invariant(self);
        }
        match &self.validity {
            Some(bitmap) => bitmap.get(index),
            None => true,
        }
    }

    /// Number of null rows (zero without a bitmap).
    pub fn null_count(&self) -> (count: usize)
        ensures
            count == nulls(self.mask(), self.data().len()),
    {
        proof {
            use_type_invariant(self);
            lemma_nulls_partition(self.mask(), self.data().len());
        }
        match &self.validity {
            Some(bitmap) => bitmap.len() - bitmap.count_set(),
            None => 0,
        }
    }

    /// The rendered value at `index`, or `None` for a null row.
    pub fn value_at(&self, index: usize) -> (value: Option<&str>)
        requires
            index < self.data().len(),
        ensures
            match value {
                Some(text) => self.row(index as int) == Some(text@),
                None => self.row(index as int) is None,
            },
    {
        proof {
            use_type_invariant(self);
        }
        if self.is_valid(index) {
            let code: u32 = self.codes.as_slice()[index];
            Some(self.dictionary.value(code))
        } else {
            None
        }
    }
}

impl Clone for KeyColumn {
    fn clone(&self) -> (column: Self)
        ensures
            column.data() == self.data(),
            column.mask() == self.mask(),
            column.words() == self.words(),
    {
        proof {
            use_type_invariant(self);
        }
        KeyColumn {
            codes: self.codes.clone(),
            validity: match &self.validity {
                Some(bitmap) => Some(bitmap.clone()),
                None => None,
            },
            dictionary: self.dictionary.clone(),
        }
    }
}

impl vstd::std_specs::cmp::PartialEqSpecImpl for KeyColumn {
    open spec fn obeys_eq_spec() -> bool {
        true
    }

    open spec fn eq_spec(&self, other: &Self) -> bool {
        self.data() == other.data() && self.mask() == other.mask() && self.words()
            == other.words()
    }
}

impl PartialEq for KeyColumn {
    fn eq(&self, other: &Self) -> (equal: bool) {
        let same_codes: bool = self.codes == other.codes;
        proof {
            if same_codes {
                assert(self.data() =~= other.data());
            }
        }
        same_codes && same_validity(&self.validity, &other.validity) && self.dictionary
            == other.dictionary
    }
}

} // verus!
