//! The value map: how engine values and script values convert.
//!
//! - Null is a sentinel value of its own, neither nil nor a NaN.
//! - A script's result type is declared, never inferred.
//! - Coercion is exact or an error: an integer fills a float slot, and a
//!   float an integer slot, only without loss. A boolean fills an integer
//!   slot with zero or one. Nil and the sentinel mark a slot null. A string
//!   fills a key slot, and nothing else does.
//! - Keys read as codes, with text on demand.
//!
//! A view is good for one call: it carries the generation it was bound in,
//! and is refused in any other.
use crate::bitmap::Bitmap;
use crate::buffer::valid_bits;
use crate::float64::{
    exact_float, exact_int, float_as_i64_exact, int_as_f64_exact, Float64,
};
use crate::key::{has_room, interned, text_of, Dictionary};
use crate::text::{decimal, push_size};
use vstd::prelude::*;
use vstd::utf8::{decode_utf8, valid_utf8};

verus! {

/// A value as a script hands it over.
#[derive(Debug)]
pub enum LuaValue {
    /// Nil.
    Nil,
    /// The null sentinel.
    Null,
    /// A boolean.
    Boolean(bool),
    /// A number of the integer subtype.
    Integer(i64),
    /// A number of the float subtype.
    Number(Float64),
    /// A string: any bytes.
    Text(Vec<u8>),
    /// A table, a function, a view, or anything else.
    Other,
}

/// A value to hand to a script.
#[derive(Debug)]
pub enum Reply {
    /// Nil: absence.
    Nil,
    /// The null sentinel.
    Null,
    /// A float.
    Number(Float64),
    /// An integer.
    Integer(i64),
    /// A boolean.
    Boolean(bool),
    /// A string.
    Text(String),
}

/// What a reply holds.
pub enum ReplyModel {
    /// Nil.
    Nil,
    /// The null sentinel.
    Null,
    /// A float.
    Number(Float64),
    /// An integer.
    Integer(i64),
    /// A boolean.
    Boolean(bool),
    /// A string.
    Text(Seq<char>),
}

impl View for Reply {
    type V = ReplyModel;

    open spec fn view(&self) -> ReplyModel {
        match self {
            Reply::Nil => ReplyModel::Nil,
            Reply::Null => ReplyModel::Null,
            Reply::Number(value) => ReplyModel::Number(*value),
            Reply::Integer(value) => ReplyModel::Integer(*value),
            Reply::Boolean(value) => ReplyModel::Boolean(*value),
            Reply::Text(value) => ReplyModel::Text(value@),
        }
    }
}

/// A result with its reply and its message taken by their contents.
pub open spec fn answer(result: Result<Reply, &'static str>) -> Result<ReplyModel, Seq<char>> {
    match result {
        Ok(reply) => Ok(reply@),
        Err(message) => Err(message@),
    }
}

/// The message of a refused call, if it was.
pub open spec fn refusal<T>(result: Result<T, &'static str>) -> Option<Seq<char>> {
    match result {
        Ok(_) => None,
        Err(message) => Some(message@),
    }
}

/// A borrowed input column for one script call: values, an optional validity
/// bitmap (absent means no nulls), and for keys the dictionary the codes
/// index into.
#[derive(Clone, Copy)]
pub enum ColumnView<'a> {
    /// A float column; elements read as floats.
    F64 {
        /// The values.
        floats: &'a [Float64],
        /// One bit per element; unset means null.
        validity: Option<&'a Bitmap>,
    },
    /// An integer column; elements read as integers, exactly.
    I64 {
        /// The values.
        integers: &'a [i64],
        /// One bit per element; unset means null.
        validity: Option<&'a Bitmap>,
    },
    /// A key column; elements read as dictionary codes.
    Key {
        /// The per-row codes.
        codes: &'a [u32],
        /// One bit per element; unset means null.
        validity: Option<&'a Bitmap>,
        /// The dictionary the codes index into.
        dictionary: &'a Dictionary,
    },
}

impl<'a> ColumnView<'a> {
    /// The number of elements.
    pub open spec fn rows(&self) -> nat {
        match self {
            ColumnView::F64 { floats, .. } => floats@.len(),
            ColumnView::I64 { integers, .. } => integers@.len(),
            ColumnView::Key { codes, .. } => codes@.len(),
        }
    }

    /// The validity bits, if there are any.
    pub open spec fn mask(&self) -> Option<Seq<bool>> {
        let validity = match self {
            ColumnView::F64 { validity, .. } => *validity,
            ColumnView::I64 { validity, .. } => *validity,
            ColumnView::Key { validity, .. } => *validity,
        };
        match validity {
            Some(bitmap) => Some(bitmap@),
            None => None,
        }
    }

    /// One validity bit per element.
    pub open spec fn aligned(&self) -> bool {
        self.mask() matches Some(bits) ==> bits.len() == self.rows()
    }

    /// Whether an element is valid.
    pub open spec fn valid(&self, i: int) -> bool {
        valid_bits(self.mask(), self.rows())[i]
    }

    /// What an element reads as: its value, or null.
    pub open spec fn cell(&self, i: int) -> ReplyModel {
        if !self.valid(i) {
            ReplyModel::Null
        } else {
            match self {
                ColumnView::F64 { floats, .. } => ReplyModel::Number(floats@[i]),
                ColumnView::I64 { integers, .. } => ReplyModel::Integer(integers@[i]),
                ColumnView::Key { codes, .. } => ReplyModel::Integer(codes@[i] as i64),
            }
        }
    }

    /// Number of elements.
    pub fn len(&self) -> (len: usize)
        ensures
            len == self.rows(),
    {
        match self {
            ColumnView::F64 { floats, .. } => floats.len(),
            ColumnView::I64 { integers, .. } => integers.len(),
            ColumnView::Key { codes, .. } => codes.len(),
        }
    }

    /// The validity bitmap, if there is one.
    pub fn validity(&self) -> (validity: Option<&'a Bitmap>)
        ensures
            match validity {
                Some(bitmap) => self.mask() == Some(bitmap@),
                None => self.mask() is None,
            },
    {
        match self {
            ColumnView::F64 { validity, .. } => *validity,
            ColumnView::I64 { validity, .. } => *validity,
            ColumnView::Key { validity, .. } => *validity,
        }
    }

    /// Whether the element at `index` is valid.
    pub fn is_valid(&self, index: usize) -> (valid: bool)
        requires
            self.aligned(),
            index < self.rows(),
        ensures
            valid == self.valid(index as int),
    {
        match self.validity() {
            Some(bitmap) => bitmap.get(index),
            None => true,
        }
    }

    /// Whether no element is null.
    pub fn is_dense(&self) -> (dense: bool)
        requires
            self.aligned(),
        ensures
            dense == (forall|i: int| 0 <= i < self.rows() ==> self.valid(i)),
    {
        match self.validity() {
            Some(bitmap) => {
                proof {
                    crate::bitmap::lemma_count_bounds(bitmap@);
                    assert(bitmap@ == valid_bits(self.mask(), self.rows()));
                    if forall|i: int| 0 <= i < self.rows() ==> self.valid(i) {
                        assert forall|i: int| 0 <= i < bitmap@.len() implies bitmap@[i] by {
                            assert(self.valid(i));
                        }
                    }
                }
                bitmap.count_set() == self.len()
            },
            None => true,
        }
    }

    /// Whether this is a key view.
    pub fn is_key(&self) -> (key: bool)
        ensures
            key == (*self is Key),
    {
        match self {
            ColumnView::Key { .. } => true,
            _ => false,
        }
    }
}

/// The declared type of a script's result, enforced exactly and never
/// inferred from the value a call happens to return.
#[derive(Clone, Copy, PartialEq, Eq, Debug, Structural)]
pub enum ReturnType {
    /// The result fills a float slot.
    F64,
    /// The result fills an integer slot.
    I64,
    /// The result is a key.
    Key,
}

/// A script's scalar result, coerced to its declared type.
#[derive(Clone, Copy, PartialEq, Debug)]
pub enum ScalarValue {
    /// A float.
    F64(Float64),
    /// An integer.
    I64(i64),
    /// Null.
    Null,
}

/// A script value coerced to a typed slot.
#[derive(Clone, Copy, Debug)]
pub enum Coerced {
    /// Fills a float slot.
    F64(Float64),
    /// Fills an integer slot.
    I64(i64),
    /// Fills a key slot.
    KeyCode(u32),
    /// Marks the slot null.
    Null,
}

/// The words of a dictionary after a value was coerced to a slot: a key slot
/// interns its text.
pub open spec fn words_after(value: LuaValue, slot: ReturnType, words: Seq<Seq<char>>) -> Seq<
    Seq<char>,
> {
    match (slot, value) {
        (ReturnType::Key, LuaValue::Text(bytes)) => if valid_utf8(bytes@) && has_room(
            words,
            decode_utf8(bytes@),
        ) {
            interned(words, decode_utf8(bytes@))
        } else {
            words
        },
        _ => words,
    }
}

/// What a value fills a slot with, or why it cannot: exactly, or not at all.
pub open spec fn coerce_spec(value: LuaValue, slot: ReturnType, words: Seq<Seq<char>>) -> Result<
    Coerced,
    Seq<char>,
> {
    match value {
        LuaValue::Nil => Ok(Coerced::Null),
        LuaValue::Null => Ok(Coerced::Null),
        _ => match slot {
            ReturnType::F64 => match value {
                LuaValue::Integer(integer) => match exact_float(integer as int) {
                    Some(float) => Ok(Coerced::F64(float)),
                    None => Err("integer does not fit f64 exactly"@),
                },
                LuaValue::Number(float) => Ok(Coerced::F64(float)),
                LuaValue::Boolean(_) => Err("a boolean maps to i64 {0, 1}, not f64"@),
                LuaValue::Text(_) => Err("a string produces a key, not f64"@),
                _ => Err("f64 slot expects a number or NULL"@),
            },
            ReturnType::I64 => match value {
                LuaValue::Integer(integer) => Ok(Coerced::I64(integer)),
                LuaValue::Number(float) => match exact_int(float) {
                    Some(integer) => Ok(Coerced::I64(integer)),
                    None => Err("float does not fit i64 exactly"@),
                },
                LuaValue::Boolean(truth) => Ok(
                    Coerced::I64(
                        if truth {
                            1
                        } else {
                            0
                        },
                    ),
                ),
                LuaValue::Text(_) => Err("a string produces a key, not i64"@),
                _ => Err("i64 slot expects a number, boolean, or NULL"@),
            },
            ReturnType::Key => match value {
                LuaValue::Text(bytes) => if !valid_utf8(bytes@) {
                    Err("key text must be valid UTF-8"@)
                } else if !has_room(words, decode_utf8(bytes@)) {
                    Err("output key dictionary is full"@)
                } else {
                    Ok(
                        Coerced::KeyCode(
                            interned(words, decode_utf8(bytes@)).index_of(
                                decode_utf8(bytes@),
                            ) as u32,
                        ),
                    )
                },
                _ => Err("only a string produces a key (codes are per-segment)"@),
            },
        },
    }
}

/// A result with its message taken by its contents.
pub open spec fn coerced(result: Result<Coerced, &'static str>) -> Result<Coerced, Seq<char>> {
    match result {
        Ok(value) => Ok(value),
        Err(message) => Err(message@),
    }
}

/// Coerces a script value to a slot, exactly or not at all. A key slot
/// interns the text into `dictionary`; other slots leave it alone.
pub fn coerce(value: &LuaValue, slot: ReturnType, dictionary: &mut Dictionary) -> (filled: Result<
    Coerced,
    &'static str,
>)
    ensures
        coerced(filled) == coerce_spec(*value, slot, old(dictionary)@),
        final(dictionary)@ == words_after(*value, slot, old(dictionary)@),
{
    match value {
        LuaValue::Nil => {
            return Ok(Coerced::Null);
        },
        LuaValue::Null => {
            return Ok(Coerced::Null);
        },
        _ => {},
    }
    match slot {
        ReturnType::F64 => match value {
            LuaValue::Integer(integer) => match int_as_f64_exact(*integer) {
                Some(float) => Ok(Coerced::F64(float)),
                None => Err("integer does not fit f64 exactly"),
            },
            LuaValue::Number(float) => Ok(Coerced::F64(*float)),
            LuaValue::Boolean(_) => Err("a boolean maps to i64 {0, 1}, not f64"),
            LuaValue::Text(_) => Err("a string produces a key, not f64"),
            _ => Err("f64 slot expects a number or NULL"),
        },
        ReturnType::I64 => match value {
            LuaValue::Integer(integer) => Ok(Coerced::I64(*integer)),
            LuaValue::Number(float) => match float_as_i64_exact(*float) {
                Some(integer) => Ok(Coerced::I64(integer)),
                None => Err("float does not fit i64 exactly"),
            },
            LuaValue::Boolean(truth) => Ok(
                Coerced::I64(
                    if *truth {
                        1
                    } else {
                        0
                    },
                ),
            ),
            LuaValue::Text(_) => Err("a string produces a key, not i64"),
            _ => Err("i64 slot expects a number, boolean, or NULL"),
        },
        ReturnType::Key => match value {
            LuaValue::Text(bytes) => match text_of(bytes.as_slice()) {
                Some(text) => {
                    proof {
                        vstd::utf8::decode_utf8_encode_utf8(bytes@);
                    }
                    let known: bool = dictionary.code_of(text).is_some();
                    let taken: usize = dictionary.bytes().len();
                    if !known && bytes.len() > 0x7FFF_FFFF - taken {
                        return Err("output key dictionary is full");
                    }
                    let code: u32 = dictionary.intern(text);
                    let _ = dictionary.len();
                    proof {
                        let words = dictionary@;
                        let found = words.index_of(text@);
                        assert(words[code as int] == text@);
                        assert(words[found] == text@);
                        assert(found == code);
                    }
                    Ok(Coerced::KeyCode(code))
                },
                None => Err("key text must be valid UTF-8"),
            },
            _ => Err("only a string produces a key (codes are per-segment)"),
        },
    }
}

/// Why a validity bitmap does not go with its values, if so. The name comes
/// quoted.
pub open spec fn validity_failure(quoted: Seq<char>, bits: Option<nat>, values: nat) -> Option<
    Seq<char>,
> {
    match bits {
        Some(n) => if n == values {
            None
        } else {
            Some(
                "column "@ + quoted + ": validity has "@ + decimal(n) + " bits for "@ + decimal(
                    values,
                ) + " values"@,
            )
        },
        None => None,
    }
}

/// Checks a view before it is bound: a validity bitmap must have one bit per
/// value. The column's name is given quoted, for the message.
pub fn check_view(quoted: &str, view: &ColumnView<'_>) -> (checked: Result<(), String>)
    ensures
        match checked {
            Ok(()) => view.aligned(),
            Err(text) => !view.aligned() && validity_failure(
                quoted@,
                Some(view.mask()->0.len()),
                view.rows(),
            ) == Some(text@),
        },
{
    match view.validity() {
        None => Ok(()),
        Some(bitmap) => {
            if bitmap.len() == view.len() {
                return Ok(());
            }
            let mut text = String::from_str("column ");
            text.append(quoted);
            text.append(": validity has ");
            push_size(&mut text, bitmap.len());
            text.append(" bits for ");
            push_size(&mut text, view.len());
            text.append(" values");
            Err(text)
        },
    }
}

/// Checks that a view is used in the call it was bound in.
pub fn check_alive(born: u64, generation: u64) -> (checked: Result<(), &'static str>)
    ensures
        refusal(checked) == (if born == generation {
            None
        } else {
            Some("view used outside its call"@)
        }),
{
    if born != generation {
        return Err("view used outside its call");
    }
    Ok(())
}

/// What a script can hold a handle to.
#[derive(Clone, Copy, Debug, PartialEq, Eq, Structural)]
pub enum Handle {
    /// An input view.
    View,
    /// The output column.
    Output,
    /// A view's mask.
    Mask,
    /// A vector.
    Vector,
}

/// Why an accessor cannot use the handle it was given, if so. It is none of
/// its own, or it was bound in another call; vectors belong to no call.
pub open spec fn handle_failure(
    handle: Handle,
    own: bool,
    born: u64,
    generation: u64,
) -> Option<Seq<char>> {
    if !own {
        Some(
            match handle {
                Handle::View => "view accessor on a non-view"@,
                Handle::Output => "output accessor on a non-output"@,
                Handle::Mask => "mask accessor on a non-mask"@,
                Handle::Vector => "vector accessor on a non-vector"@,
            },
        )
    } else if handle != Handle::Vector && born != generation {
        Some("view used outside its call"@)
    } else {
        None
    }
}

/// Checks the handle an accessor was given.
pub fn check_handle(handle: Handle, own: bool, born: u64, generation: u64) -> (checked: Result<
    (),
    &'static str,
>)
    ensures
        refusal(checked) == handle_failure(handle, own, born, generation),
{
    if !own {
        return Err(
            match handle {
                Handle::View => "view accessor on a non-view",
                Handle::Output => "output accessor on a non-output",
                Handle::Mask => "mask accessor on a non-mask",
                Handle::Vector => "vector accessor on a non-vector",
            },
        );
    }
    match handle {
        Handle::Vector => Ok(()),
        _ => check_alive(born, generation),
    }
}

/// Why a write through a handle is refused, if so: only the output takes
/// writes.
pub fn write_refusal(handle: Handle) -> (refused: Option<&'static str>)
    ensures
        match (handle, refused) {
            (Handle::View, Some(message)) => message@ == "input views are read-only"@,
            (Handle::Mask, Some(message)) => message@ == "masks are read-only"@,
            (Handle::Vector, Some(message)) => message@
                == "vectors are read-only (compose a new one)"@,
            (Handle::Output, None) => true,
            _ => false,
        },
{
    match handle {
        Handle::View => Some("input views are read-only"),
        Handle::Mask => Some("masks are read-only"),
        Handle::Vector => Some("vectors are read-only (compose a new one)"),
        Handle::Output => None,
    }
}

/// Where an index points, or why it points nowhere: indices start at one.
pub open spec fn index_spec(index: Option<i64>, len: nat) -> Result<nat, Seq<char>> {
    match index {
        None => Err("view index must be an integer"@),
        Some(i) => if i < 1 || i > len {
            Err("view index out of range"@)
        } else {
            Ok((i - 1) as nat)
        },
    }
}

/// The element an index points at. The index is what the interpreter's
/// conversion to an integer gave, if it gave anything.
pub fn element_index(index: Option<i64>, len: usize) -> (offset: Result<usize, &'static str>)
    ensures
        match offset {
            Ok(o) => index_spec(index, len as nat) == Ok::<nat, Seq<char>>(o as nat),
            Err(message) => index_spec(index, len as nat) == Err::<nat, Seq<char>>(message@),
        },
{
    match index {
        None => Err("view index must be an integer"),
        Some(i) => {
            if i < 1 || i as u64 > len as u64 {
                return Err("view index out of range");
            }
            Ok((i - 1) as usize)
        },
    }
}

/// Reads an element of an input view.
pub fn input_index(view: &ColumnView<'_>, index: Option<i64>) -> (reply: Result<
    Reply,
    &'static str,
>)
    requires
        view.aligned(),
    ensures
        answer(reply) == match index_spec(index, view.rows()) {
            Ok(offset) => Ok(view.cell(offset as int)),
            Err(message) => Err(message),
        },
{
    let offset: usize = match element_index(index, view.len()) {
        Ok(offset) => offset,
        Err(message) => {
            return Err(message);
        },
    };
    if !view.is_valid(offset) {
        return Ok(Reply::Null);
    }
    match view {
        ColumnView::F64 { floats, .. } => Ok(Reply::Number(floats[offset])),
        ColumnView::I64 { integers, .. } => Ok(Reply::Integer(integers[offset])),
        ColumnView::Key { codes, .. } => Ok(Reply::Integer(codes[offset] as i64)),
    }
}

/// A method of an input view.
#[derive(Clone, Copy, PartialEq, Eq, Debug, Structural)]
pub enum ViewMethod {
    /// The validity view.
    Mask,
    /// The null-skipping sum.
    Sum,
    /// The text of a key element.
    Text,
    /// The code of a literal.
    CodeOf,
}

/// The method a name stands for on a view, or why there is none.
pub open spec fn method_spec(name: Seq<u8>, key: bool) -> Result<ViewMethod, Seq<char>> {
    if name == vstd::utf8::encode_utf8("mask"@) {
        Ok(ViewMethod::Mask)
    } else if name == vstd::utf8::encode_utf8("sum"@) {
        if key {
            Err("sum() is a numeric-view method; keys are not arithmetic"@)
        } else {
            Ok(ViewMethod::Sum)
        }
    } else if name == vstd::utf8::encode_utf8("text"@) {
        if key {
            Ok(ViewMethod::Text)
        } else {
            Err("text() and code_of() are key-view methods"@)
        }
    } else if name == vstd::utf8::encode_utf8("code_of"@) {
        if key {
            Ok(ViewMethod::CodeOf)
        } else {
            Err("text() and code_of() are key-view methods"@)
        }
    } else {
        Err("no such view method"@)
    }
}

/// Finds a view's method by name, with the type check at the name.
pub fn input_method(view: &ColumnView<'_>, name: &[u8]) -> (method: Result<
    ViewMethod,
    &'static str,
>)
    ensures
        match method {
            Ok(m) => method_spec(name@, *view is Key) == Ok::<ViewMethod, Seq<char>>(m),
            Err(message) => method_spec(name@, *view is Key) == Err::<ViewMethod, Seq<char>>(
                message@,
            ),
        },
{
    let key: bool = view.is_key();
    if crate::cdata::format::same_bytes(name, "mask".as_bytes()) {
        Ok(ViewMethod::Mask)
    } else if crate::cdata::format::same_bytes(name, "sum".as_bytes()) {
        if key {
            Err("sum() is a numeric-view method; keys are not arithmetic")
        } else {
            Ok(ViewMethod::Sum)
        }
    } else if crate::cdata::format::same_bytes(name, "text".as_bytes()) {
        if key {
            Ok(ViewMethod::Text)
        } else {
            Err("text() and code_of() are key-view methods")
        }
    } else if crate::cdata::format::same_bytes(name, "code_of".as_bytes()) {
        if key {
            Ok(ViewMethod::CodeOf)
        } else {
            Err("text() and code_of() are key-view methods")
        }
    } else {
        Err("no such view method")
    }
}

/// The valid ones of the first `n` values, in order.
pub open spec fn valid_values<T>(values: Seq<T>, valid: Seq<bool>, n: nat) -> Seq<T>
    decreases n,
{
    if n == 0 {
        Seq::empty()
    } else if valid[n - 1] {
        valid_values(values, valid, (n - 1) as nat).push(values[n - 1])
    } else {
        valid_values(values, valid, (n - 1) as nat)
    }
}

/// The sum of some integers, unless it leaves the range on the way.
pub open spec fn checked_sum(values: Seq<i64>) -> Option<int>
    decreases values.len(),
{
    if values.len() == 0 {
        Some(0)
    } else {
        match checked_sum(values.drop_last()) {
            Some(sum) => if i64::MIN <= sum + values.last() <= i64::MAX {
                Some(sum + values.last())
            } else {
                None
            },
            None => None,
        }
    }
}

/// Once a sum has left the range it stays out.
proof fn lemma_sum_overflow(values: Seq<i64>, k: int)
    requires
        0 <= k <= values.len(),
        checked_sum(values.take(k)) is None,
    ensures
        checked_sum(values) is None,
    decreases values.len() - k,
{
    if k < values.len() {
        assert(values.drop_last().take(k) =~= values.take(k));
        lemma_sum_overflow(values.drop_last(), k);
    } else {
        assert(values.take(k) =~= values);
    }
}

/// The valid values of a prefix are a prefix of the valid values.
proof fn lemma_valid_prefix<T>(values: Seq<T>, valid: Seq<bool>, k: nat, n: nat)
    requires
        k <= n,
    ensures
        valid_values(values, valid, k).len() <= valid_values(values, valid, n).len(),
        valid_values(values, valid, n).take(valid_values(values, valid, k).len() as int)
            == valid_values(values, valid, k),
    decreases n - k,
{
    let prefix = valid_values(values, valid, k);
    if k == n {
        assert(prefix.take(prefix.len() as int) =~= prefix);
    } else {
        lemma_valid_prefix(values, valid, k, (n - 1) as nat);
        let before = valid_values(values, valid, (n - 1) as nat);
        assert(valid_values(values, valid, n).take(prefix.len() as int) =~= before.take(
            prefix.len() as int,
        ));
    }
}

/// The sum of a view's valid elements.
#[derive(Debug)]
pub enum ViewSum {
    /// Nothing to sum.
    Null,
    /// The exact sum of integers.
    Integer(i64),
    /// The floats to sum, in order.
    Floats(Vec<Float64>),
}

/// The null-skipping sum of a numeric view. As in SQL, the sum of nothing is
/// null, and an integer sum that leaves the range is an error.
pub fn view_sum(view: &ColumnView<'_>) -> (sum: Result<ViewSum, &'static str>)
    requires
        view.aligned(),
    ensures
        ({
            let valid = valid_bits(view.mask(), view.rows());
            match *view {
                ColumnView::Key { .. } => refusal(sum) == Some(
                    "sum() is a numeric-view method; keys are not arithmetic"@,
                ),
                ColumnView::F64 { floats, .. } => {
                    let values = valid_values(floats@, valid, floats@.len());
                    if values.len() == 0 {
                        sum == Ok::<ViewSum, &'static str>(ViewSum::Null)
                    } else {
                        sum matches Ok(ViewSum::Floats(list)) && list@ == values
                    }
                },
                ColumnView::I64 { integers, .. } => {
                    let values = valid_values(integers@, valid, integers@.len());
                    if checked_sum(values) is None {
                        refusal(sum) == Some("i64 sum overflows"@)
                    } else if values.len() == 0 {
                        sum == Ok::<ViewSum, &'static str>(ViewSum::Null)
                    } else {
                        sum matches Ok(ViewSum::Integer(total)) && checked_sum(values) == Some(
                            total as int,
                        )
                    }
                },
            }
        }),
{
    let ghost valid = valid_bits(view.mask(), view.rows());
    match view {
        ColumnView::Key { .. } => Err("sum() is a numeric-view method; keys are not arithmetic"),
        ColumnView::F64 { floats, .. } => {
            let mut list: Vec<Float64> = Vec::new();
            let mut offset: usize = 0;
            while offset < floats.len()
                invariant
                    offset <= floats@.len(),
                    view.aligned(),
                    view.rows() == floats@.len(),
                    valid == valid_bits(view.mask(), view.rows()),
                    list@ == valid_values(floats@, valid, offset as nat),
                decreases floats@.len() - offset,
            {
                if view.is_valid(offset) {
                    list.push(floats[offset]);
                }
                offset += 1;
            }
            if list.len() == 0 {
                Ok(ViewSum::Null)
            } else {
                Ok(ViewSum::Floats(list))
            }
        },
        ColumnView::I64 { integers, .. } => {
            let mut sum: i64 = 0;
            let mut seen: bool = false;
            let mut offset: usize = 0;
            while offset < integers.len()
                invariant
                    offset <= integers@.len(),
                    view.aligned(),
                    view.rows() == integers@.len(),
                    *view matches ColumnView::I64 { integers: viewed, .. } && viewed@ == integers@,
                    valid == valid_bits(view.mask(), view.rows()),
                    checked_sum(valid_values(integers@, valid, offset as nat)) == Some(sum as int),
                    seen == (valid_values(integers@, valid, offset as nat).len() > 0),
                decreases integers@.len() - offset,
            {
                if view.is_valid(offset) {
                    proof {
                        let before = valid_values(integers@, valid, offset as nat);
                        let after = valid_values(integers@, valid, (offset + 1) as nat);
                        assert(after.drop_last() =~= before);
                        assert(after.last() == integers@[offset as int]);
                    }
                    match sum.checked_add(integers[offset]) {
                        Some(next) => {
                            sum = next;
                        },
                        None => {
                            proof {
                                let all = valid_values(integers@, valid, integers@.len());
                                let after = valid_values(integers@, valid, (offset + 1) as nat);
                                lemma_valid_prefix(
                                    integers@,
                                    valid,
                                    (offset + 1) as nat,
                                    integers@.len(),
                                );
                                lemma_sum_overflow(all, after.len() as int);
                            }
                            return Err("i64 sum overflows");
                        },
                    }
                    seen = true;
                }
                offset += 1;
            }
            if seen {
                Ok(ViewSum::Integer(sum))
            } else {
                Ok(ViewSum::Null)
            }
        },
    }
}

/// The text of a key element, decoded on demand. A null element is null.
pub fn key_text(view: &ColumnView<'_>, index: Option<i64>) -> (reply: Result<Reply, &'static str>)
    requires
        view.aligned(),
    ensures
        answer(reply) == match *view {
            ColumnView::Key { codes, dictionary, .. } => match index_spec(index, view.rows()) {
                Err(message) => Err(message),
                Ok(offset) => if !view.valid(offset as int) {
                    Ok(ReplyModel::Null)
                } else if codes@[offset as int] >= dictionary@.len() {
                    Err("key code out of dictionary range"@)
                } else {
                    Ok(ReplyModel::Text(dictionary@[codes@[offset as int] as int]))
                },
            },
            _ => Err("text() and code_of() are key-view methods"@),
        },
{
    match view {
        ColumnView::Key { codes, dictionary, .. } => {
            let offset: usize = match element_index(index, view.len()) {
                Ok(offset) => offset,
                Err(message) => {
                    return Err(message);
                },
            };
            if !view.is_valid(offset) {
                return Ok(Reply::Null);
            }
            let code: u32 = codes[offset];
            if code as usize >= dictionary.len() {
                return Err("key code out of dictionary range");
            }
            Ok(Reply::Text(dictionary.value(code).to_owned()))
        },
        _ => Err("text() and code_of() are key-view methods"),
    }
}

/// The code of a literal, or nil where it was never interned (absence, not
/// null). A literal that is not UTF-8 is simply absent.
pub fn key_code_of(view: &ColumnView<'_>, literal: &LuaValue) -> (reply: Result<
    Reply,
    &'static str,
>)
    ensures
        match *view {
            ColumnView::Key { dictionary, .. } => match *literal {
                LuaValue::Text(bytes) => match reply {
                    Ok(Reply::Integer(code)) => valid_utf8(bytes@) && 0 <= code < dictionary@.len()
                        && dictionary@[code as int] == decode_utf8(bytes@),
                    Ok(Reply::Nil) => !valid_utf8(bytes@) || !dictionary@.contains(
                        decode_utf8(bytes@),
                    ),
                    _ => false,
                },
                _ => refusal(reply) == Some("code_of expects a string literal"@),
            },
            _ => refusal(reply) == Some("text() and code_of() are key-view methods"@),
        },
{
    match view {
        ColumnView::Key { dictionary, .. } => match literal {
            LuaValue::Text(bytes) => match text_of(bytes.as_slice()) {
                Some(text) => match dictionary.code_of(text) {
                    Some(code) => Ok(Reply::Integer(code as i64)),
                    None => Ok(Reply::Nil),
                },
                None => Ok(Reply::Nil),
            },
            _ => Err("code_of expects a string literal"),
        },
        _ => Err("text() and code_of() are key-view methods"),
    }
}

/// Reads an element of a view's validity: true where it is valid.
pub fn mask_index(view: &ColumnView<'_>, index: Option<i64>) -> (reply: Result<
    Reply,
    &'static str,
>)
    requires
        view.aligned(),
    ensures
        answer(reply) == match index_spec(index, view.rows()) {
            Ok(offset) => Ok(ReplyModel::Boolean(view.valid(offset as int))),
            Err(message) => Err(message),
        },
{
    match element_index(index, view.len()) {
        Ok(offset) => Ok(Reply::Boolean(view.is_valid(offset))),
        Err(message) => Err(message),
    }
}

/// The output column a script writes. Its validity starts all null, so a
/// slot the script never writes comes back null.
pub enum OutputColumn {
    /// A float output column.
    F64 {
        /// The values to fill.
        floats: Vec<Float64>,
        /// One bit per slot.
        validity: Bitmap,
    },
    /// An integer output column.
    I64 {
        /// The values to fill.
        integers: Vec<i64>,
        /// One bit per slot.
        validity: Bitmap,
    },
    /// A key output column; scripts fill it with strings, which are interned.
    Key {
        /// The codes to fill.
        codes: Vec<u32>,
        /// One bit per slot.
        validity: Bitmap,
        /// The dictionary output strings are interned into.
        dictionary: Dictionary,
    },
}

/// What a filled slot reads as.
pub open spec fn filled_cell(value: Coerced) -> ReplyModel {
    match value {
        Coerced::F64(float) => ReplyModel::Number(float),
        Coerced::I64(integer) => ReplyModel::Integer(integer),
        Coerced::KeyCode(code) => ReplyModel::Integer(code as i64),
        Coerced::Null => ReplyModel::Null,
    }
}

impl OutputColumn {
    /// The number of slots.
    pub open spec fn rows(&self) -> nat {
        match self {
            OutputColumn::F64 { floats, .. } => floats@.len(),
            OutputColumn::I64 { integers, .. } => integers@.len(),
            OutputColumn::Key { codes, .. } => codes@.len(),
        }
    }

    /// Which slots are valid.
    pub open spec fn bits(&self) -> Seq<bool> {
        match self {
            OutputColumn::F64 { validity, .. } => validity@,
            OutputColumn::I64 { validity, .. } => validity@,
            OutputColumn::Key { validity, .. } => validity@,
        }
    }

    /// One validity bit per slot.
    pub open spec fn aligned(&self) -> bool {
        self.bits().len() == self.rows()
    }

    /// The type of the slots.
    pub open spec fn slot(&self) -> ReturnType {
        match self {
            OutputColumn::F64 { .. } => ReturnType::F64,
            OutputColumn::I64 { .. } => ReturnType::I64,
            OutputColumn::Key { .. } => ReturnType::Key,
        }
    }

    /// The dictionary's values, in code order; none without one.
    pub open spec fn words(&self) -> Seq<Seq<char>> {
        match self {
            OutputColumn::Key { dictionary, .. } => dictionary@,
            _ => Seq::empty(),
        }
    }

    /// The value each slot holds, be it valid or not.
    pub open spec fn stored(&self) -> Seq<ReplyModel> {
        match self {
            OutputColumn::F64 { floats, .. } => floats@.map_values(
                |float: Float64| ReplyModel::Number(float),
            ),
            OutputColumn::I64 { integers, .. } => integers@.map_values(
                |integer: i64| ReplyModel::Integer(integer),
            ),
            OutputColumn::Key { codes, .. } => codes@.map_values(
                |code: u32| ReplyModel::Integer(code as i64),
            ),
        }
    }

    /// What each slot reads as: its value where it is valid, null where it
    /// is not.
    pub open spec fn cells(&self) -> Seq<ReplyModel> {
        Seq::new(
            self.rows(),
            |i: int|
                if self.bits()[i] {
                    self.stored()[i]
                } else {
                    ReplyModel::Null
                },
        )
    }

    /// The same type, values, validity and dictionary.
    pub open spec fn same(&self, other: OutputColumn) -> bool {
        &&& self.slot() == other.slot()
        &&& self.stored() == other.stored()
        &&& self.bits() == other.bits()
        &&& self.words() == other.words()
    }

    /// Number of slots.
    pub fn len(&self) -> (len: usize)
        ensures
            len == self.rows(),
    {
        match self {
            OutputColumn::F64 { floats, .. } => floats.len(),
            OutputColumn::I64 { integers, .. } => integers.len(),
            OutputColumn::Key { codes, .. } => codes.len(),
        }
    }

    /// Makes the column ready for a script: every slot null, whatever the
    /// validity was. The values and the dictionary are not touched.
    pub fn bind(&mut self)
        ensures
            final(self).aligned(),
            final(self).slot() == old(self).slot(),
            final(self).words() == old(self).words(),
            final(self).stored() == old(self).stored(),
            final(self).bits() == Seq::new(old(self).rows(), |i: int| false),
            final(self).cells() == Seq::new(old(self).rows(), |i: int| ReplyModel::Null),
    {
        match self {
            OutputColumn::F64 { floats, validity } => {
                *validity = Bitmap::new_unset(floats.len());
            },
            OutputColumn::I64 { integers, validity } => {
                *validity = Bitmap::new_unset(integers.len());
            },
            OutputColumn::Key { codes, validity, .. } => {
                *validity = Bitmap::new_unset(codes.len());
            },
        }
        assert(self.stored() =~= old(self).stored());
        assert(self.cells() =~= Seq::new(old(self).rows(), |i: int| ReplyModel::Null));
    }

    /// Fills a slot, or marks it null.
    pub(crate) fn fill(&mut self, offset: usize, value: Coerced)
        requires
            old(self).aligned(),
            offset < old(self).rows(),
            match value {
                Coerced::F64(_) => *old(self) is F64,
                Coerced::I64(_) => *old(self) is I64,
                Coerced::KeyCode(_) => *old(self) is Key,
                Coerced::Null => true,
            },
        ensures
            final(self).aligned(),
            final(self).slot() == old(self).slot(),
            final(self).words() == old(self).words(),
            final(self).bits() == old(self).bits().update(offset as int, !(value is Null)),
            final(self).stored() == (if value is Null {
                old(self).stored()
            } else {
                old(self).stored().update(offset as int, filled_cell(value))
            }),
            final(self).cells() == old(self).cells().update(offset as int, filled_cell(value)),
    {
        match self {
            OutputColumn::F64 { floats, validity } => match value {
                Coerced::F64(float) => {
                    floats.set(offset, float);
                    validity.set(offset, true);
                },
                _ => {
                    validity.set(offset, false);
                },
            },
            OutputColumn::I64 { integers, validity } => match value {
                Coerced::I64(integer) => {
                    integers.set(offset, integer);
                    validity.set(offset, true);
                },
                _ => {
                    validity.set(offset, false);
                },
            },
            OutputColumn::Key { codes, validity, .. } => match value {
                Coerced::KeyCode(code) => {
                    codes.set(offset, code);
                    validity.set(offset, true);
                },
                _ => {
                    validity.set(offset, false);
                },
            },
        }
        assert(self.stored() =~= (if value is Null {
            old(self).stored()
        } else {
            old(self).stored().update(offset as int, filled_cell(value))
        }));
        assert(self.cells() =~= old(self).cells().update(offset as int, filled_cell(value)));
    }

    /// Writes a slot: the value is coerced to the column's type, and nil or
    /// null marks the slot null. A refused write changes nothing.
    pub fn write(&mut self, is_number: bool, index: Option<i64>, value: &LuaValue) -> (written:
        Result<(), &'static str>)
        requires
            old(self).aligned(),
        ensures
            final(self).aligned(),
            final(self).slot() == old(self).slot(),
            ({
                let target = index_spec(index, old(self).rows());
                let coerced = coerce_spec(*value, old(self).slot(), old(self).words());
                if !is_number {
                    refusal(written) == Some("output index must be an integer"@) && final(
                        self).same(*old(self))
                } else if target is Err {
                    refusal(written) == Some(target->Err_0) && final(self).same(*old(self))
                } else if coerced is Err {
                    refusal(written) == Some(coerced->Err_0) && final(self).same(*old(self))
                } else {
                    &&& written is Ok
                    &&& final(self).bits() == old(self).bits().update(
                        target->Ok_0 as int,
                        !(coerced->Ok_0 is Null),
                    )
                    &&& final(self).stored() == (if coerced->Ok_0 is Null {
                        old(self).stored()
                    } else {
                        old(self).stored().update(
                            target->Ok_0 as int,
                            filled_cell(coerced->Ok_0),
                        )
                    })
                    &&& final(self).cells() == old(self).cells().update(
                        target->Ok_0 as int,
                        filled_cell(coerced->Ok_0),
                    )
                    &&& old(self).slot() == ReturnType::Key ==> final(self).words() == words_after(
                        *value,
                        ReturnType::Key,
                        old(self).words(),
                    )
                }
            }),
    {
        if !is_number {
            return Err("output index must be an integer");
        }
        let offset: usize = match element_index(index, self.len()) {
            Ok(offset) => offset,
            Err(message) => {
                return Err(message);
            },
        };
        let ghost before = *self;
        let filled: Result<Coerced, &'static str> = match self {
            OutputColumn::F64 { .. } => {
                let mut none = Dictionary::new();
                coerce(value, ReturnType::F64, &mut none)
            },
            OutputColumn::I64 { .. } => {
                let mut none = Dictionary::new();
                coerce(value, ReturnType::I64, &mut none)
            },
            OutputColumn::Key { dictionary, .. } => coerce(value, ReturnType::Key, dictionary),
        };
        assert(self.stored() =~= before.stored());
        assert(self.cells() =~= before.cells());
        match filled {
            Ok(coerced) => {
                self.fill(offset, coerced);
                Ok(())
            },
            Err(message) => Err(message),
        }
    }

    /// Reads a slot back: its value, or null where it is null or unwritten.
    pub fn read(&self, index: Option<i64>) -> (reply: Result<Reply, &'static str>)
        requires
            self.aligned(),
        ensures
            answer(reply) == match index_spec(index, self.rows()) {
                Ok(offset) => Ok(self.cells()[offset as int]),
                Err(message) => Err(message),
            },
    {
        let offset: usize = match element_index(index, self.len()) {
            Ok(offset) => offset,
            Err(message) => {
                return Err(message);
            },
        };
        match self {
            OutputColumn::F64 { floats, validity } => {
                if validity.get(offset) {
                    Ok(Reply::Number(floats[offset]))
                } else {
                    Ok(Reply::Null)
                }
            },
            OutputColumn::I64 { integers, validity } => {
                if validity.get(offset) {
                    Ok(Reply::Integer(integers[offset]))
                } else {
                    Ok(Reply::Null)
                }
            },
            OutputColumn::Key { codes, validity, .. } => {
                if validity.get(offset) {
                    Ok(Reply::Integer(codes[offset] as i64))
                } else {
                    Ok(Reply::Null)
                }
            },
        }
    }
}

/// What a script's scalar result is under its declared type, or why it is
/// none.
pub open spec fn result_spec(value: LuaValue, declared: ReturnType) -> Result<
    ReplyModel,
    Seq<char>,
> {
    if declared == ReturnType::Key {
        Err(
            "a key-typed scalar result has no output dictionary; produce keys through an output column"@,
        )
    } else {
        match coerce_spec(value, declared, Seq::empty()) {
            Ok(filled) => Ok(filled_cell(filled)),
            Err(message) => Err("result: "@ + message),
        }
    }
}

/// Reads a script's scalar result under its declared type.
pub fn read_result(value: &LuaValue, declared: ReturnType) -> (result: Result<ScalarValue, String>)
    ensures
        match result {
            Ok(ScalarValue::F64(float)) => declared == ReturnType::F64 && result_spec(
                *value,
                declared,
            ) == Ok::<ReplyModel, Seq<char>>(ReplyModel::Number(float)),
            Ok(ScalarValue::I64(integer)) => declared == ReturnType::I64 && result_spec(
                *value,
                declared,
            ) == Ok::<ReplyModel, Seq<char>>(ReplyModel::Integer(integer)),
            Ok(ScalarValue::Null) => result_spec(*value, declared) == Ok::<ReplyModel, Seq<char>>(
                ReplyModel::Null,
            ),
            Err(text) => result_spec(*value, declared) == Err::<ReplyModel, Seq<char>>(text@),
        },
{
    match declared {
        ReturnType::Key => {
            return Err(
                String::from_str(
                    "a key-typed scalar result has no output dictionary; produce keys through an output column",
                ),
            );
        },
        _ => {},
    }
    let mut none = Dictionary::new();
    match coerce(value, declared, &mut none) {
        Ok(Coerced::F64(float)) => Ok(ScalarValue::F64(float)),
        Ok(Coerced::I64(integer)) => Ok(ScalarValue::I64(integer)),
        Ok(Coerced::KeyCode(_)) => Ok(ScalarValue::Null),
        Ok(Coerced::Null) => Ok(ScalarValue::Null),
        Err(message) => {
            let mut text = String::from_str("result: ");
            text.append(message);
            Err(text)
        },
    }
}

/// The type of the returned value never decides: what fills a slot has the
/// slot's type, whatever was handed over.
pub proof fn lemma_declared_type_decides(
    value: LuaValue,
    slot: ReturnType,
    words: Seq<Seq<char>>,
)
    ensures
        coerce_spec(value, slot, words) matches Ok(filled) ==> match filled {
            Coerced::F64(_) => slot == ReturnType::F64,
            Coerced::I64(_) => slot == ReturnType::I64,
            Coerced::KeyCode(_) => slot == ReturnType::Key,
            Coerced::Null => value is Nil || value is Null,
        },
{
}

/// What a view reads can be written back and reads the same: floats (NaN
/// and all), integers beyond the floats' exact range, and nulls survive.
pub proof fn lemma_identity_kernel(view: ColumnView<'_>, value: LuaValue, i: int)
    requires
        0 <= i < view.rows(),
        !(view is Key),
        match view.cell(i) {
            ReplyModel::Null => value is Null,
            ReplyModel::Number(float) => value == LuaValue::Number(float),
            ReplyModel::Integer(integer) => value == LuaValue::Integer(integer),
            _ => false,
        },
    ensures
        ({
            let slot = if view is F64 {
                ReturnType::F64
            } else {
                ReturnType::I64
            };
            coerce_spec(value, slot, Seq::empty()) matches Ok(filled) && filled_cell(filled)
                == view.cell(i)
        }),
{
}

/// A key's text, written to a key output, gives a code that stands for the
/// text.
pub proof fn lemma_key_text_round_trip(text: Seq<char>, value: LuaValue, words: Seq<Seq<char>>)
    requires
        value matches LuaValue::Text(bytes) && bytes@ == vstd::utf8::encode_utf8(text),
        has_room(words, text),
        words.len() < u32::MAX,
    ensures
        coerce_spec(value, ReturnType::Key, words) matches Ok(Coerced::KeyCode(code)) && {
            let after = words_after(value, ReturnType::Key, words);
            code < after.len() && after[code as int] == text
        },
{
    vstd::utf8::encode_utf8_valid_utf8(text);
    vstd::utf8::encode_utf8_decode_utf8(text);
    crate::key::lemma_intern_idempotent_and_stable(words, text);
    let after = interned(words, text);
    let code = after.index_of(text);
    assert(after[code] == text);
}

} // verus!
