//! The smaller calls: checks, readings of single arguments, and texts.
use crate::bitmap::byte_len;
use crate::buffer::{Buffer, Element};
use crate::cdata::array::{export_batch, ArrowArray};
use crate::cdata::format::{
    export_schema, field_format, parse_decimal, parse_field, parse_schema, ArrowSchema,
    ImportError,
};
use crate::cdata::stream::{export_stream, ArrowArrayStream, StreamReader};
use crate::column::{check_range, ColumnModel, ColumnType};
use crate::compute::blas::{as_blas_dim, BlasError, BlasOp, NativeBlas};
use crate::compute::lapack::{
    as_lapack_dim, square_side, ColMajor, ComputeError, NativeLapack, Op,
};
use crate::compute::linalg::{LinalgError, LinalgOp, RustLinalg};
use crate::float64::{are_finite, unit_from, Float64};
use crate::laws::interchange::{decimal_format, spells};
use crate::laws::numbers::spelled;
use crate::logical::LogicalType;
use crate::lua::host::has_nul;
use crate::lua::log::{mask_summary, view_summary};
use crate::lua::state::error_text;
use crate::lua::values::{check_view, ColumnView};
use crate::lua::vector::{alpha_argument, count_argument, window_argument};
use crate::schema::{Field, RecordBatch, Schema};
use crate::text::{key_label, lossy_text, push_decimal, push_signed_decimal};
use vstd::prelude::*;
use vstd::utf8::encode_utf8;

verus! {

/// Bits take an eighth of a byte each, and a window lies within a column
/// exactly when it ends there.
pub proof fn lemma_sizes(
    len: usize,
    bytes: usize,
    offset: usize,
    rows: usize,
    outer: usize,
    inside: bool,
)
    requires
        call_ensures(byte_len, (len,), bytes),
        call_ensures(check_range, (offset, rows, outer), inside),
    ensures
        8 * bytes >= len && 8 * bytes < len + 8,
        inside <==> offset + rows <= outer,
{
}

/// A buffer made of a list holds it; one that is new holds nothing.
pub proof fn lemma_made_buffers<T: Element>(
    values: Vec<T>,
    made: Buffer<T>,
    fresh: Buffer<T>,
    empty: bool,
)
    requires
        call_ensures(Buffer::<T>::from_vec, (values,), made),
        call_ensures(Buffer::<T>::new, (), fresh),
        call_ensures(Buffer::<T>::is_empty, (&made,), empty),
    ensures
        made@ == values@,
        fresh@.len() == 0,
        empty <==> values@.len() == 0,
{
}

/// Decimals are read from exactly the text they are written as.
pub proof fn lemma_decimals(
    format: &str,
    read: Result<LogicalType, ImportError>,
    scale: u8,
    written: String,
)
    requires
        scale <= 18,
        call_ensures(LogicalType::c_data_format, (&LogicalType::Decimal64 { scale },), written),
        call_ensures(parse_decimal, (format,), read),
    ensures
        written@ == decimal_format(scale),
        read matches Ok(logical) ==> (logical matches LogicalType::Decimal64 { scale } && scale
            <= 18 && format@ == decimal_format(scale)),
        format@ == written@ ==> read is Ok,
{
    crate::laws::interchange::lemma_decimal_format(scale);
    if let Ok(LogicalType::Decimal64 { scale: found }) = read {
        crate::laws::interchange::lemma_decimal_format(found);
    }
    if read is Err && format@ == written@ {
        assert(crate::cdata::format::is_decimal(format@, scale));
    }
}

/// A description is read as the field whose name, flag and format it has.
pub proof fn lemma_field_readings(child: ArrowSchema, read: Result<Field, ImportError>)
    requires
        call_ensures(parse_field, (&child,), read),
        read is Ok,
    ensures
        child.name is Some ==> spells(child.name, read->Ok_0@.name),
        read->Ok_0@.nullable <==> child.flags & 2 != 0,
        child.dictionary is Some <==> read->Ok_0@.column_type == ColumnType::Key,
        child.dictionary is None ==> match (read->Ok_0@.column_type, read->Ok_0@.logical) {
            (ColumnType::F64, None) => spells(child.format, seq!['g']),
            (ColumnType::I64, None) => spells(child.format, seq!['l']),
            (ColumnType::I64, Some(LogicalType::TimestampNs)) => spells(
                child.format,
                seq!['t', 's', 'n', ':'],
            ),
            (ColumnType::I64, Some(LogicalType::Decimal64 { scale })) => spells(
                child.format,
                decimal_format(scale),
            ),
            _ => false,
        },
{
    crate::laws::interchange::lemma_parsed_field(child, read->Ok_0@);
}

/// A schema that is described is read back as it was.
pub proof fn lemma_schema_crossing(
    schema: Schema,
    described: ArrowSchema,
    read: Result<Schema, ImportError>,
)
    requires
        crate::cdata::format::schema_exportable(schema@),
        schema@.len() <= usize::MAX,
        forall|i: int| 0 <= i < schema@.len() ==> (#[trigger] schema@[i]).consistent(),
        call_ensures(export_schema, (&schema,), described),
        call_ensures(parse_schema, (&described,), read),
    ensures
        read matches Ok(back) && back@ == schema@,
{
    crate::cdata::format::lemma_schema_round_trip(described, schema@);
}

/// A field's format is that of its type, or of its annotation.
pub proof fn lemma_formats_written(field: Field, format: String)
    requires
        call_ensures(field_format, (&field,), format),
    ensures
        field@.column_type == ColumnType::F64 ==> format@ == seq!['g'],
        field@.column_type == ColumnType::Key ==> format@ == seq!['I'],
        field@.column_type == ColumnType::I64 ==> match field@.logical {
            None => format@ == seq!['l'],
            Some(LogicalType::TimestampNs) => format@ == seq!['t', 's', 'n', ':'],
            Some(LogicalType::Decimal64 { scale }) => format@ == decimal_format(scale),
        },
{
    crate::laws::interchange::lemma_formats();
    if let Some(LogicalType::Decimal64 { scale }) = field@.logical {
        crate::laws::interchange::lemma_decimal_format(scale);
    }
}

/// A batch is exported as its schema and its columns.
pub proof fn lemma_exports(batch: RecordBatch, exported: (ArrowSchema, ArrowArray), i: int)
    requires
        call_ensures(export_batch, (&batch,), exported),
        0 <= i < batch@.columns.len(),
    ensures
        exported.0.live && exported.1.live,
        exported.0.n_children == batch@.schema.len(),
        exported.1.n_children == batch@.columns.len(),
        exported.1.length == batch@.columns[0].rows(),
        exported.1.children@[i].length == batch@.columns[i].rows(),
        match batch@.columns[i] {
            ColumnModel::F64 { floats, .. } => exported.1.children@[i].buffers@[1] matches
                crate::cdata::array::ArrowBuffer::F64(data) && data@ == floats,
            ColumnModel::I64 { integers, .. } => exported.1.children@[i].buffers@[1] matches
                crate::cdata::array::ArrowBuffer::I64(data) && data@ == integers,
            ColumnModel::Key { codes, .. } => exported.1.children@[i].buffers@[1] matches
                crate::cdata::array::ArrowBuffer::U32(data) && data@ == codes,
        },
{
    crate::laws::interchange::lemma_exported_batch(exported.1, batch@.columns);
    assert(crate::cdata::array::describes_column(
        exported.1.children@[i],
        batch@.columns[i],
    ));
}

/// A stream starts out live, under its schema and without an error; it says
/// its last error, and it is read only where it has both callbacks.
pub proof fn lemma_streams(
    schema: Schema,
    stream: ArrowArrayStream,
    error: Option<&str>,
    get_schema: bool,
    get_next: bool,
    checked: Result<(), ImportError>,
)
    requires
        call_ensures(export_stream, (schema,), stream),
        call_ensures(ArrowArrayStream::get_last_error, (&stream,), error),
        call_ensures(StreamReader::check_callbacks, (get_schema, get_next), checked),
    ensures
        stream.is_live(),
        stream.fields() == schema@,
        error is None,
        checked is Ok <==> get_schema && get_next,
{
}

/// The native backends run every operation, and so does the one in Rust.
pub proof fn lemma_supports(
    blas: NativeBlas,
    lapack: NativeLapack,
    linalg: RustLinalg,
    a: BlasOp,
    b: Op,
    c: LinalgOp,
    x: bool,
    y: bool,
    z: bool,
)
    requires
        call_ensures(NativeBlas::supports, (&blas, a), x),
        call_ensures(NativeLapack::supports, (&lapack, b), y),
        call_ensures(RustLinalg::supports, (&linalg, c), z),
    ensures
        x && y && z,
{
}

/// A dimension is the number itself, where thirty-two bits hold it, and a
/// square matrix has one side.
pub proof fn lemma_sides(
    value: usize,
    blas: Result<i32, BlasError>,
    lapack: Result<i32, ComputeError>,
    a: ColMajor<'_>,
    what: &str,
    side: Result<(usize, i32), ComputeError>,
)
    requires
        call_ensures(as_blas_dim, (value,), blas),
        call_ensures(as_lapack_dim, (value,), lapack),
        call_ensures(square_side, (&a, what), side),
    ensures
        blas is Ok <==> value < 0x8000_0000,
        blas matches Ok(d) ==> d == value,
        lapack is Ok <==> value < 0x8000_0000,
        lapack matches Ok(d) ==> d == value,
        side is Ok <==> a.rows() == a.cols() && 0 < a.rows() < 0x8000_0000,
        side matches Ok(d) ==> d.0 == a.rows() && d.1 == a.rows(),
{
}

/// A routine has succeeded exactly when it reports zero; what it overwrites
/// is a copy; and its answer is the first values it left behind, kept from
/// the factorization only where they are finite.
pub proof fn lemma_routines(
    lapack: NativeLapack,
    routine: &'static str,
    info: i32,
    checked: Result<(), ComputeError>,
    values: &[Float64],
    copy: Vec<Float64>,
    work: Vec<Float64>,
    n: usize,
    kept: Option<Vec<Float64>>,
    answer: Result<Vec<Float64>, ComputeError>,
    queried: i32,
    len: usize,
)
    requires
        n <= work@.len(),
        call_ensures(NativeLapack::check_info, (&lapack, routine, info), checked),
        call_ensures(NativeLapack::scratch, (&lapack, values), copy),
        call_ensures(NativeLapack::keep_factorization, (&lapack, info, work, n), kept),
        call_ensures(NativeLapack::singular_value_answer, (&lapack, info, work, n), answer),
        call_ensures(NativeLapack::workspace, (&lapack, queried), len),
    ensures
        checked is Ok <==> info == 0,
        copy@ == values@,
        kept is Some <==> info == 0 && forall|i: int|
            0 <= i < n ==> (#[trigger] work@[i]).finite(),
        kept matches Some(list) ==> list@ == work@.take(n as int),
        answer is Ok <==> info == 0,
        answer matches Ok(list) ==> list@ == work@.take(n as int),
        len >= 1,
        queried >= 1 ==> len == queried,
{
    let first = work@.take(n as int);
    if kept is None && info == 0 {
        let k = choose|k: int| 0 <= k < first.len() && !(#[trigger] first[k]).finite();
        assert(!work@[k].finite());
    }
    if kept is Some {
        assert forall|i: int| 0 <= i < n implies (#[trigger] work@[i]).finite() by {
            assert(first[i].finite());
        }
    }
}

/// The backend in Rust takes the products whose shapes go together.
pub proof fn lemma_products(
    linalg: RustLinalg,
    a: usize,
    m: usize,
    k: usize,
    b: usize,
    n: usize,
    dot: Result<(), LinalgError>,
    matvec: Result<(), LinalgError>,
    matmat: Result<(), LinalgError>,
)
    requires
        call_ensures(RustLinalg::check_dot, (&linalg, a, b), dot),
        call_ensures(RustLinalg::check_matvec, (&linalg, a, m, n, b), matvec),
        call_ensures(RustLinalg::check_matmat, (&linalg, a, m, k, b, n), matmat),
    ensures
        dot is Ok <==> a == b,
        matvec is Ok <==> a == m * n && b == n && m > 0 && n > 0,
        matmat is Ok <==> a == m * k && b == k * n && m > 0 && k > 0 && n > 0,
{
}

/// What floats say of themselves.
pub proof fn lemma_floats_say(
    v: Float64,
    w: Float64,
    finite: bool,
    nan: bool,
    less: bool,
    negated: Float64,
    values: &[Float64],
    all: bool,
    u: u64,
    unit: Float64,
)
    requires
        call_ensures(Float64::is_finite, (v,), finite),
        call_ensures(Float64::is_nan, (v,), nan),
        call_ensures(Float64::less_than, (v, w), less),
        call_ensures(Float64::negate, (v,), negated),
        call_ensures(are_finite, (values,), all),
        call_ensures(unit_from, (u,), unit),
    ensures
        finite <==> v.bits % 0x8000_0000_0000_0000 < 0x7FF0_0000_0000_0000,
        nan <==> v.bits % 0x8000_0000_0000_0000 > 0x7FF0_0000_0000_0000,
        v.finite() && w.finite() ==> (less <==> v.scaled() < w.scaled()),
        nan ==> !less,
        negated.bits != v.bits,
        negated.bits % 0x8000_0000_0000_0000 == v.bits % 0x8000_0000_0000_0000,
        all <==> forall|i: int| 0 <= i < values@.len() ==> (#[trigger] values@[i]).finite(),
        unit.scaled() * 0x20_0000_0000_0000 == (u / 2048) * crate::float64::one_scaled(),
{
    crate::laws::numbers::lemma_comparisons(v, w);
    crate::laws::numbers::lemma_units(u);
}

/// A label spells its key.
pub proof fn lemma_labels_spell(key: u32, label: String)
    requires
        call_ensures(key_label, (key,), label),
    ensures
        label@.len() >= 4,
        label@[0] == 'K',
        spelled(label@.skip(1)) == key,
        key < 1000 ==> label@.len() == 4,
{
    crate::laws::numbers::lemma_labels(key as nat);
}

/// Numbers are spelled behind what was there.
pub proof fn lemma_pushed_numbers(text: &mut String, other: &mut String, n: u64, m: i64)
    requires
        call_ensures(push_decimal, (text, n), ()),
        call_ensures(push_signed_decimal, (other, m), ()),
    ensures
        old(text)@.is_prefix_of(final(text)@),
        spelled(final(text)@.skip(old(text)@.len() as int)) == n,
        old(other)@.is_prefix_of(final(other)@),
        m >= 0 ==> spelled(final(other)@.skip(old(other)@.len() as int)) == m,
        m < 0 ==> final(other)@[old(other)@.len() as int] == '-' && spelled(
            final(other)@.skip(old(other)@.len() as int + 1),
        ) == -m,
{
    crate::laws::numbers::lemma_decimal_spells(n as nat);
    crate::laws::numbers::lemma_signed_spells(m as int);
    let plain = crate::text::decimal(n as nat);
    let signed = crate::text::signed_decimal(m as int);
    assert(final(text)@.skip(old(text)@.len() as int) =~= plain);
    assert(final(other)@.skip(old(other)@.len() as int) =~= signed);
    if m < 0 {
        assert(final(other)@.skip(old(other)@.len() as int + 1) =~= signed.skip(1));
    }
}

/// A view is summed up by its type and its length, a mask by its length.
pub proof fn lemma_summed_up(view: ColumnView<'_>, summary: String, masked: String)
    requires
        call_ensures(view_summary, (&view,), summary),
        call_ensures(mask_summary, (&view,), masked),
    ensures
        summary@[0] == (match view {
            ColumnView::F64 { .. } => 'f',
            ColumnView::I64 { .. } => 'i',
            ColumnView::Key { .. } => 'k',
        }),
        spelled(summary@.skip(14)) == view.rows(),
        spelled(masked@.skip(10)) == view.rows(),
{
    reveal_strlit("f64 view, len ");
    reveal_strlit("i64 view, len ");
    reveal_strlit("key view, len ");
    reveal_strlit("mask, len ");
    crate::laws::numbers::lemma_decimal_spells(view.rows());
    assert(summary@.skip(14) =~= crate::text::decimal(view.rows()));
    assert(masked@.skip(10) =~= crate::text::decimal(view.rows()));
}

/// Distances and widths are positive integers, factors lie above zero and at
/// most at one, and a name holds a NUL where one of its characters is.
pub proof fn lemma_arguments(
    given: Option<i64>,
    alpha: Option<Float64>,
    text: &str,
    width: Result<u64, &'static str>,
    distance: Result<u64, &'static str>,
    factor: Result<Float64, &'static str>,
    found: bool,
)
    requires
        call_ensures(window_argument, (given,), width),
        call_ensures(count_argument, (given,), distance),
        call_ensures(alpha_argument, (alpha,), factor),
        call_ensures(has_nul, (text,), found),
    ensures
        width is Ok <==> (given matches Some(n) && n >= 1),
        width matches Ok(w) ==> (given matches Some(n) && w == n),
        distance is Ok <==> (given matches Some(n) && n >= 1),
        distance matches Ok(k) ==> (given matches Some(n) && k == n),
        factor matches Ok(f) ==> alpha == Some(f) && f.finite() && 0 < f.scaled() <= (Float64 {
            bits: 0x3FF0_0000_0000_0000,
        }).scaled(),
        found <==> exists|i: int| 0 <= i < text@.len() && text@[i] == '\0',
{
    crate::float64::lemma_one();
    if let Ok(f) = factor {
        crate::laws::series::lemma_smoothing_range(f);
    }
}

/// A view is bound exactly when its bitmap, if it has one, has a bit per
/// value, and a failure's text ends with what was said.
pub proof fn lemma_checks(
    quoted: &str,
    view: ColumnView<'_>,
    checked: Result<(), String>,
    stage: &str,
    said: Vec<u8>,
    text: String,
)
    requires
        call_ensures(check_view, (quoted, &view), checked),
        call_ensures(error_text, (stage, &Some(said)), text),
    ensures
        checked is Ok <==> (view.mask() matches Some(bits) ==> bits.len() == view.rows()),
        stage@.is_prefix_of(text@),
        text@.skip(text@.len() - lossy_text(said@).len()) == lossy_text(said@),
{
    crate::laws::scripts::lemma_failures_say(stage@, said@);
}

/// A field is what it was made of, and an annotation adds to it alone.
pub proof fn lemma_fields(
    name: &str,
    column_type: ColumnType,
    nullable: bool,
    field: Field,
    logical: LogicalType,
    annotated: Field,
)
    requires
        call_ensures(Field::new, (name, column_type, nullable), field),
        call_ensures(Field::with_logical, (field, logical), annotated),
    ensures
        field@.name == name@ && field@.column_type == column_type && field@.nullable == nullable
            && field@.logical is None,
        annotated@.name == name@ && annotated@.column_type == column_type && annotated@.nullable
            == nullable && annotated@.logical == Some(logical),
{
}

/// A matrix has the values, rows and columns it was made of.
pub proof fn lemma_matrices<'a>(
    values: &'a [Float64],
    m: usize,
    n: usize,
    matrix: ColMajor<'a>,
    rows: usize,
    cols: usize,
    back: &'a [Float64],
    shaped: bool,
    len: usize,
)
    requires
        values@.len() == m * n,
        call_ensures(ColMajor::<'a>::new, (values, m, n), matrix),
        call_ensures(ColMajor::<'a>::num_rows, (&matrix,), rows),
        call_ensures(ColMajor::<'a>::num_cols, (&matrix,), cols),
        call_ensures(ColMajor::<'a>::values, (&matrix,), back),
        call_ensures(ColMajor::<'a>::fits, (len, m, n), shaped),
    ensures
        rows == m && cols == n && back@ == values@,
        shaped <==> len == m * n,
{
}

} // verus!
