//! Values between scripts and columns: what an element reads as, what a
//! value fills a slot with, and what a sum adds up to.
use crate::bitmap::Bitmap;
use crate::float64::{exact_float, exact_int, Float64};
use crate::key::{interned, lemma_intern_idempotent_and_stable, lemma_interned_distinct};
use crate::lua::values::{
    checked_sum, coerce_spec, filled_cell, handle_failure, index_spec, result_spec, valid_values,
    words_after, Coerced, ColumnView, Handle, LuaValue, OutputColumn, ReplyModel, ReturnType,
};
use vstd::prelude::*;
use vstd::utf8::{decode_utf8, valid_utf8};

verus! {

/// An element is null exactly when there is a bitmap and its bit is unset.
pub open spec fn bit_set(validity: Option<&Bitmap>, i: int) -> bool {
    validity matches Some(bitmap) ==> bitmap@[i]
}

/// An element of a view reads as the value in its place, or as null where its
/// validity bit is unset; the value under a null is never seen.
pub proof fn lemma_element_reads(view: ColumnView<'_>, i: int)
    requires
        view.aligned(),
        0 <= i < view.rows(),
    ensures
        match view {
            ColumnView::F64 { floats, validity } => {
                &&& view.rows() == floats@.len()
                &&& view.valid(i) == bit_set(validity, i)
                &&& bit_set(validity, i) ==> view.cell(i) == ReplyModel::Number(floats@[i])
                &&& !bit_set(validity, i) ==> view.cell(i) == ReplyModel::Null
            },
            ColumnView::I64 { integers, validity } => {
                &&& view.rows() == integers@.len()
                &&& view.valid(i) == bit_set(validity, i)
                &&& bit_set(validity, i) ==> view.cell(i) == ReplyModel::Integer(integers@[i])
                &&& !bit_set(validity, i) ==> view.cell(i) == ReplyModel::Null
            },
            ColumnView::Key { codes, validity, .. } => {
                &&& view.rows() == codes@.len()
                &&& view.valid(i) == bit_set(validity, i)
                &&& bit_set(validity, i) ==> (view.cell(i) matches ReplyModel::Integer(code)
                    && code == codes@[i])
                &&& !bit_set(validity, i) ==> view.cell(i) == ReplyModel::Null
            },
        },
{
}

/// A view fits its bitmap exactly when there is one bit per element.
pub proof fn lemma_view_fits(view: ColumnView<'_>)
    ensures
        view.aligned() == match view {
            ColumnView::F64 { floats, validity } => validity matches Some(bitmap) ==> bitmap@.len()
                == floats@.len(),
            ColumnView::I64 { integers, validity } => validity matches Some(bitmap)
                ==> bitmap@.len() == integers@.len(),
            ColumnView::Key { codes, validity, .. } => validity matches Some(bitmap)
                ==> bitmap@.len() == codes@.len(),
        },
{
}

/// Indices count from one: the elements are reached by one to their number,
/// each by its own, and by nothing else.
pub proof fn lemma_index_counts_from_one(index: i64, len: nat)
    ensures
        index_spec(Some(index), len) matches Ok(offset) ==> offset < len && offset + 1 == index,
        index_spec(Some(index), len) is Err <==> index <= 0 || index > len,
        index_spec(None, len) is Err,
{
}

/// Nil and the sentinel mark a slot null, whatever its type, and nothing else
/// does.
pub proof fn lemma_null_fills(value: LuaValue, slot: ReturnType, words: Seq<Seq<char>>)
    ensures
        coerce_spec(value, slot, words) == Ok::<Coerced, Seq<char>>(Coerced::Null) <==> value is Nil
            || value is Null,
        value is Nil || value is Null ==> (slot != ReturnType::Key ==> result_spec(value, slot)
            == Ok::<ReplyModel, Seq<char>>(ReplyModel::Null)),
        words_after(value, slot, words) != words ==> slot == ReturnType::Key && value is Text,
{
}

/// A boolean fills an integer slot with one exactly when it is true and with
/// zero exactly when it is false, so the two stay apart; it fills no other.
pub proof fn lemma_boolean_fills(truth: bool, words: Seq<Seq<char>>)
    ensures
        coerce_spec(LuaValue::Boolean(truth), ReturnType::I64, words) matches Ok(Coerced::I64(n))
            && 0 <= n <= 1 && (n == 1 <==> truth) && result_spec(
            LuaValue::Boolean(truth),
            ReturnType::I64,
        ) == Ok::<ReplyModel, Seq<char>>(ReplyModel::Integer(n)),
        coerce_spec(LuaValue::Boolean(truth), ReturnType::I64, words) != coerce_spec(
            LuaValue::Boolean(!truth),
            ReturnType::I64,
            words,
        ),
        coerce_spec(LuaValue::Boolean(truth), ReturnType::F64, words) is Err,
        coerce_spec(LuaValue::Boolean(truth), ReturnType::Key, words) is Err,
{
}

/// An integer fills an integer slot as itself, and a float slot with the
/// float that is it, exactly, or not at all where no float is.
pub proof fn lemma_integer_fills(n: i64, words: Seq<Seq<char>>)
    ensures
        coerce_spec(LuaValue::Integer(n), ReturnType::I64, words) matches Ok(Coerced::I64(m)) && m
            == n && result_spec(LuaValue::Integer(n), ReturnType::I64) == Ok::<
            ReplyModel,
            Seq<char>,
        >(ReplyModel::Integer(n)),
        match coerce_spec(LuaValue::Integer(n), ReturnType::F64, words) {
            Ok(Coerced::F64(v)) => v.is_integer(n as int) && v.negative() == (n < 0) && result_spec(
                LuaValue::Integer(n),
                ReturnType::F64,
            ) == Ok::<ReplyModel, Seq<char>>(ReplyModel::Number(v)),
            Ok(_) => false,
            Err(_) => forall|v: Float64| !(v.is_integer(n as int) && v.negative() == (n < 0)),
        },
        coerce_spec(LuaValue::Integer(n), ReturnType::Key, words) is Err,
{
    if exact_float(n as int) is Some {
        let v = exact_float(n as int)->0;
        assert(v.is_integer(n as int) && v.negative() == (n < 0));
    } else {
        assert forall|v: Float64| !(v.is_integer(n as int) && v.negative() == (n < 0)) by {
            if v.is_integer(n as int) && v.negative() == (n < 0) {
                assert(exists|w: Float64| w.is_integer(n as int) && w.negative() == (n < 0));
            }
        }
    }
}

/// A float fills a float slot as itself, bit for bit, and an integer slot
/// with the integer that it is, exactly, or not at all where it is none.
pub proof fn lemma_float_fills(v: Float64, words: Seq<Seq<char>>)
    ensures
        coerce_spec(LuaValue::Number(v), ReturnType::F64, words) matches Ok(Coerced::F64(w)) && w
            == v && result_spec(LuaValue::Number(v), ReturnType::F64) == Ok::<
            ReplyModel,
            Seq<char>,
        >(ReplyModel::Number(v)),
        match coerce_spec(LuaValue::Number(v), ReturnType::I64, words) {
            Ok(Coerced::I64(n)) => v.is_integer(n as int) && result_spec(
                LuaValue::Number(v),
                ReturnType::I64,
            ) == Ok::<ReplyModel, Seq<char>>(ReplyModel::Integer(n)),
            Ok(_) => false,
            Err(_) => forall|n: i64| !v.is_integer(n as int),
        },
        coerce_spec(LuaValue::Number(v), ReturnType::Key, words) is Err,
{
    if exact_int(v) is Some {
        assert(v.is_integer(exact_int(v)->0 as int));
    } else {
        assert forall|n: i64| !v.is_integer(n as int) by {
            if v.is_integer(n as int) {
                assert(exists|m: i64| v.is_integer(m as int));
            }
        }
    }
}

/// A text fills a key slot alone. Its code stands for the text, no code that
/// stood for something stands for something else, and only this text can have
/// joined. A text that was refused leaves the dictionary as it was.
pub proof fn lemma_text_fills(value: LuaValue, words: Seq<Seq<char>>)
    requires
        value is Text,
        words.no_duplicates(),
        words.len() < u32::MAX,
    ensures
        coerce_spec(value, ReturnType::F64, words) is Err,
        coerce_spec(value, ReturnType::I64, words) is Err,
        ({
            let bytes = value->Text_0@;
            let after = words_after(value, ReturnType::Key, words);
            match coerce_spec(value, ReturnType::Key, words) {
                Ok(Coerced::KeyCode(code)) => {
                    &&& valid_utf8(bytes)
                    &&& code < after.len()
                    &&& after[code as int] == decode_utf8(bytes)
                    &&& words.is_prefix_of(after)
                    &&& after.no_duplicates()
                    &&& after.len() <= words.len() + 1
                    &&& words.contains(decode_utf8(bytes)) ==> after == words
                },
                Ok(_) => false,
                Err(_) => after == words,
            }
        }),
{
    let bytes = value->Text_0@;
    let text = decode_utf8(bytes);
    let after = interned(words, text);
    lemma_intern_idempotent_and_stable(words, text);
    lemma_interned_distinct(words, text);
    if words.contains(text) {
        assert(after == words);
        assert(words =~= after.subrange(0, words.len() as int));
    } else {
        assert(words =~= after.subrange(0, words.len() as int));
    }
    let code = after.index_of(text);
    assert(after[code] == text && 0 <= code < after.len());
}

/// What fills a slot reads back as what it is.
pub proof fn lemma_filled_reads(value: Coerced)
    ensures
        match value {
            Coerced::F64(v) => filled_cell(value) == ReplyModel::Number(v),
            Coerced::I64(n) => filled_cell(value) == ReplyModel::Integer(n),
            Coerced::KeyCode(code) => filled_cell(value) matches ReplyModel::Integer(n) && n
                == code,
            Coerced::Null => filled_cell(value) == ReplyModel::Null,
        },
{
}

/// A slot of an output reads as its value where its validity bit is set, and
/// as null where it is not.
pub proof fn lemma_output_reads(output: OutputColumn, i: int)
    requires
        output.aligned(),
        0 <= i < output.rows(),
    ensures
        output.cells().len() == output.rows(),
        match output {
            OutputColumn::F64 { floats, validity } => {
                &&& floats@.len() == output.rows()
                &&& validity@.len() == output.rows()
                &&& validity@[i] ==> output.cells()[i] == ReplyModel::Number(floats@[i])
                &&& !validity@[i] ==> output.cells()[i] == ReplyModel::Null
                &&& output.stored()[i] == ReplyModel::Number(floats@[i])
            },
            OutputColumn::I64 { integers, validity } => {
                &&& integers@.len() == output.rows()
                &&& validity@.len() == output.rows()
                &&& validity@[i] ==> output.cells()[i] == ReplyModel::Integer(integers@[i])
                &&& !validity@[i] ==> output.cells()[i] == ReplyModel::Null
                &&& output.stored()[i] == ReplyModel::Integer(integers@[i])
            },
            OutputColumn::Key { codes, validity, dictionary } => {
                &&& codes@.len() == output.rows()
                &&& validity@.len() == output.rows()
                &&& output.words() == dictionary@
                &&& validity@[i] ==> (output.cells()[i] matches ReplyModel::Integer(n) && n
                    == codes@[i])
                &&& !validity@[i] ==> output.cells()[i] == ReplyModel::Null
            },
        },
{
}

/// The slots of an output take what its kind says.
pub proof fn lemma_output_slot(output: OutputColumn)
    ensures
        output.slot() == ReturnType::F64 <==> output is F64,
        output.slot() == ReturnType::I64 <==> output is I64,
        output.slot() == ReturnType::Key <==> output is Key,
{
}

/// The valid values are those whose bit is set, in their order.
pub proof fn lemma_valid_values_filter<T>(values: Seq<T>, valid: Seq<bool>, n: nat)
    requires
        n <= values.len(),
        n <= valid.len(),
    ensures
        valid_values(values, valid, n) == Seq::new(n, |i: int| (values[i], valid[i])).filter(
            |pair: (T, bool)| pair.1,
        ).map_values(|pair: (T, bool)| pair.0),
    decreases n,
{
    let set = |pair: (T, bool)| pair.1;
    let value = |pair: (T, bool)| pair.0;
    let pairs = Seq::new(n, |i: int| (values[i], valid[i]));
    reveal(Seq::filter);
    if n == 0 {
        assert(pairs.filter(set).map_values(value) =~= Seq::<T>::empty());
    } else {
        let m = (n - 1) as nat;
        lemma_valid_values_filter(values, valid, m);
        let before = Seq::new(m, |i: int| (values[i], valid[i]));
        assert(pairs.drop_last() =~= before);
        assert(pairs.last() == (values[n - 1], valid[n - 1]));
        assert(pairs.filter(set) == (if valid[n - 1] {
            before.filter(set).push(pairs.last())
        } else {
            before.filter(set)
        }));
        assert(pairs.filter(set).map_values(value) =~= (if valid[n - 1] {
            before.filter(set).map_values(value).push(values[n - 1])
        } else {
            before.filter(set).map_values(value)
        }));
    }
}

/// The running total of some integers.
pub open spec fn total(values: Seq<i64>) -> int {
    values.fold_left(0int, |sum: int, value: i64| sum + value)
}

/// An integer sum is the arithmetic sum of the values, and is there exactly
/// when no running total leaves the range.
pub proof fn lemma_sum_adds_up(values: Seq<i64>)
    ensures
        checked_sum(values) matches Some(sum) ==> sum == total(values),
        checked_sum(values) is Some <==> (forall|k: int|
            0 <= k <= values.len() ==> i64::MIN <= total(#[trigger] values.take(k)) <= i64::MAX),
    decreases values.len(),
{
    let plus = |sum: int, value: i64| sum + value;
    if values.len() == 0 {
        assert(total(values) == 0);
        assert forall|k: int| 0 <= k <= values.len() implies i64::MIN <= total(
            #[trigger] values.take(k),
        ) <= i64::MAX by {
            assert(values.take(k) =~= values);
        }
    } else {
        let rest = values.drop_last();
        lemma_sum_adds_up(rest);
        assert(total(values) == total(rest) + values.last());
        assert(values.take(values.len() as int) =~= values);
        if checked_sum(values) is Some {
            assert forall|k: int| 0 <= k <= values.len() implies i64::MIN <= total(
                #[trigger] values.take(k),
            ) <= i64::MAX by {
                if k < values.len() {
                    assert(rest.take(k) =~= values.take(k));
                }
            }
        } else if checked_sum(rest) is None {
            let k = choose|k: int|
                0 <= k <= rest.len() && !(i64::MIN <= total(#[trigger] rest.take(k)) <= i64::MAX);
            assert(rest.take(k) =~= values.take(k));
        } else {
            assert(rest.take(rest.len() as int) =~= rest);
        }
    }
}

/// The sum of one value is that value, whatever its sign, and the sum of two
/// lists, one after the other, is the sum of their sums.
pub proof fn lemma_sums_join(first: Seq<i64>, second: Seq<i64>, one: i64)
    ensures
        checked_sum(seq![one]) == Some(one as int),
        checked_sum(first + second) matches Some(sum) ==> sum == total(first) + total(second),
{
    lemma_sum_adds_up(first + second);
    lemma_sum_adds_up(seq![one]);
    let single = seq![one];
    assert(single.drop_last() =~= Seq::<i64>::empty());
    assert(checked_sum(single.drop_last()) == Some(0int));
    lemma_totals_join(first, second);
}

/// Totals add up over lists that are put together.
proof fn lemma_totals_join(first: Seq<i64>, second: Seq<i64>)
    ensures
        total(first + second) == total(first) + total(second),
    decreases second.len(),
{
    if second.len() == 0 {
        assert(first + second =~= first);
    } else {
        lemma_totals_join(first, second.drop_last());
        assert((first + second).drop_last() =~= first + second.drop_last());
        assert((first + second).last() == second.last());
    }
}

/// A handle that is not the accessor's own is refused; of its own, all but
/// vectors are good in the call they were made in alone.
pub proof fn lemma_handles_expire(handle: Handle, own: bool, born: u64, generation: u64)
    ensures
        handle_failure(handle, own, born, generation) is None <==> own && (handle is Vector || born
            == generation),
{
}

/// A view has its values' length and its bitmap's bits.
pub proof fn lemma_view_parts(view: ColumnView<'_>)
    ensures
        match view {
            ColumnView::F64 { floats, validity } => view.rows() == floats@.len() && bits_of(
                validity,
            ) == view.mask(),
            ColumnView::I64 { integers, validity } => view.rows() == integers@.len() && bits_of(
                validity,
            ) == view.mask(),
            ColumnView::Key { codes, validity, .. } => view.rows() == codes@.len() && bits_of(
                validity,
            ) == view.mask(),
        },
{
}

/// The bits of a bitmap that may be missing.
pub open spec fn bits_of(validity: Option<&Bitmap>) -> Option<Seq<bool>> {
    match validity {
        Some(bitmap) => Some(bitmap@),
        None => None,
    }
}

/// An output has its values' length and its bitmap's bits, and is fit for
/// use where the two are as many.
pub proof fn lemma_output_parts(output: OutputColumn)
    ensures
        match output {
            OutputColumn::F64 { floats, validity } => output.rows() == floats@.len()
                && output.bits() == validity@ && (output.aligned() <==> validity@.len()
                == floats@.len()),
            OutputColumn::I64 { integers, validity } => output.rows() == integers@.len()
                && output.bits() == validity@ && (output.aligned() <==> validity@.len()
                == integers@.len()),
            OutputColumn::Key { codes, validity, dictionary } => output.rows() == codes@.len()
                && output.bits() == validity@ && output.words() == dictionary@ && (
            output.aligned() <==> validity@.len() == codes@.len()),
        },
{
}

} // verus!
