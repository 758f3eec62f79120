//! Schemas and record batches: named, typed collections of columns.
//!
//! A [`Field`] declares one column. A [`Schema`] is the ordered field list; a
//! [`RecordBatch`] binds a schema to actual columns and is the unit that
//! crosses the C Data Interface. What a batch binds is consistent by
//! construction: types match, lengths agree, and a `NOT NULL` column carries
//! no bitmap.
use crate::buffer::{valid_bits, NumericColumn};
use crate::column::{equal_models, Column, ColumnModel, ColumnType, NumericData};
use crate::float64::Float64;
use crate::key::KeyColumn;
use crate::logical::LogicalType;
use crate::text::{decimal, push_size};
use vstd::prelude::*;

verus! {

/// What a field declares.
pub struct FieldModel {
    /// The column name.
    pub name: Seq<char>,
    /// The physical type.
    pub column_type: ColumnType,
    /// Whether rows may be null.
    pub nullable: bool,
    /// The export annotation, if any.
    pub logical: Option<LogicalType>,
}

impl FieldModel {
    /// Annotations sit on integer columns only.
    pub open spec fn consistent(self) -> bool {
        self.logical is Some ==> self.column_type == ColumnType::I64
    }
}

/// One column's declaration: name, physical type, nullability, optional
/// export annotation.
#[derive(Debug)]
pub struct Field {
    name: String,
    column_type: ColumnType,
    nullable: bool,
    logical: Option<LogicalType>,
}

impl View for Field {
    type V = FieldModel;

    closed spec fn view(&self) -> FieldModel {
        FieldModel {
            name: self.name@,
            column_type: self.column_type,
            nullable: self.nullable,
            logical: self.logical,
        }
    }
}

impl Field {
    #[verifier::type_invariant]
    spec fn annotated_integers_only(&self) -> bool {
        self.logical is Some ==> self.column_type == ColumnType::I64
    }

    /// A field with no logical annotation.
    pub fn new(name: &str, column_type: ColumnType, nullable: bool) -> (field: Self)
        ensures
            field@ == (FieldModel { name: name@, column_type, nullable, logical: None }),
    {
        Field { name: name.to_owned(), column_type, nullable, logical: None }
    }

    /// Adds a logical annotation, which applies to integer columns only.
    pub fn with_logical(self, logical: LogicalType) -> (field: Self)
        requires
            self@.column_type == ColumnType::I64,
        ensures
            field@ == (FieldModel { logical: Some(logical), ..self@ }),
    {
        Field {
            name: self.name,
            column_type: self.column_type,
            nullable: self.nullable,
            logical: Some(logical),
        }
    }

    /// The column name.
    pub fn name(&self) -> (name: &str)
        ensures
            name@ == self@.name,
    {
        self.name.as_str()
    }

    /// The physical type.
    pub fn column_type(&self) -> (column_type: ColumnType)
        ensures
            column_type == self@.column_type,
    {
        self.column_type
    }

    /// Whether rows may be null. `false` also promises the bound column
    /// carries no validity bitmap.
    pub fn nullable(&self) -> (nullable: bool)
        ensures
            nullable == self@.nullable,
    {
        self.nullable
    }

    /// The export annotation, if any; only an integer column has one.
    pub fn logical(&self) -> (logical: Option<LogicalType>)
        ensures
            logical == self@.logical,
            self@.consistent(),
    {
        proof {
            use_type_invariant(self);
        }
        self.logical
    }
}

impl Clone for Field {
    fn clone(&self) -> (field: Self)
        ensures
            field@ == self@,
    {
        proof {
            use_type_invariant(self);
        }
        Field {
            name: self.name.clone(),
            column_type: self.column_type,
            nullable: self.nullable,
            logical: self.logical,
        }
    }
}

impl vstd::std_specs::cmp::PartialEqSpecImpl for Field {
    open spec fn obeys_eq_spec() -> bool {
        true
    }

    open spec fn eq_spec(&self, other: &Self) -> bool {
        self@ == other@
    }
}

impl PartialEq for Field {
    fn eq(&self, other: &Self) -> (equal: bool) {
        let same_logical: bool = match (self.logical, other.logical) {
            (Some(a), Some(b)) => a == b,
            (None, None) => true,
            _ => false,
        };
        self.name == other.name && self.column_type == other.column_type && self.nullable
            == other.nullable && same_logical
    }
}

impl Eq for Field {

}

/// What each of some fields declares.
pub open spec fn field_models(fields: Seq<Field>) -> Seq<FieldModel> {
    fields.map_values(|field: Field| field@)
}

/// What each of some columns holds.
pub open spec fn column_models(columns: Seq<Column>) -> Seq<ColumnModel> {
    columns.map_values(|column: Column| column@)
}

/// An ordered list of fields.
#[derive(Debug)]
pub struct Schema {
    fields: Vec<Field>,
}

impl View for Schema {
    type V = Seq<FieldModel>;

    closed spec fn view(&self) -> Seq<FieldModel> {
        field_models(self.fields@)
    }
}

impl Schema {
    /// A schema over `fields`.
    pub fn new(fields: Vec<Field>) -> (schema: Self)
        ensures
            schema@ == field_models(fields@),
    {
        Schema { fields }
    }

    /// The fields, in column order.
    pub fn fields(&self) -> (fields: &[Field])
        ensures
            field_models(fields@) == self@,
            fields@.len() == self@.len(),
    {
        self.fields.as_slice()
    }
}

impl Clone for Schema {
    fn clone(&self) -> (schema: Self)
        ensures
            schema@ == self@,
    {
        let mut fields: Vec<Field> = Vec::new();
        let mut index: usize = 0;
        while index < self.fields.len()
            invariant
                index <= self.fields@.len(),
                field_models(fields@) == field_models(self.fields@).take(index as int),
            decreases self.fields@.len() - index,
        {
            let ghost before = fields@;
            fields.push(self.fields[index].clone());
            index += 1;
            assert(field_models(fields@) =~= field_models(before).push(
                field_models(self.fields@)[index - 1],
            ));
            assert(field_models(self.fields@).take(index as int) =~= field_models(
                self.fields@,
            ).take(index - 1).push(field_models(self.fields@)[index - 1]));
        }
        assert(field_models(self.fields@).take(index as int) =~= field_models(self.fields@));
        Schema { fields }
    }
}

impl vstd::std_specs::cmp::PartialEqSpecImpl for Schema {
    open spec fn obeys_eq_spec() -> bool {
        true
    }

    open spec fn eq_spec(&self, other: &Self) -> bool {
        self@ == other@
    }
}

impl PartialEq for Schema {
    fn eq(&self, other: &Self) -> (equal: bool) {
        if self.fields.len() != other.fields.len() {
            assert(self@.len() != other@.len());
            return false;
        }
        let mut index: usize = 0;
        while index < self.fields.len()
            invariant
                index <= self.fields@.len(),
                self.fields@.len() == other.fields@.len(),
                forall|i: int| 0 <= i < index ==> #[trigger] self@[i] == other@[i],
            decreases self.fields@.len() - index,
        {
            assert(self@[index as int] == self.fields@[index as int]@);
            assert(other@[index as int] == other.fields@[index as int]@);
            if self.fields[index] != other.fields[index] {
                return false;
            }
            index += 1;
        }
        assert(self@ =~= other@);
        true
    }
}

impl Eq for Schema {

}

/// Why a column cannot be bound to a field, if so, given the rows that the
/// batch's first column has.
pub open spec fn column_failure(field: FieldModel, column: ColumnModel, rows: nat) -> Option<
    Seq<char>,
> {
    if field.column_type != column.kind() {
        Some("column '"@ + field.name + "' bound with wrong physical type"@)
    } else if column.rows() != rows {
        Some(
            "column '"@ + field.name + "' has "@ + decimal(column.rows()) + " rows, expected "@
                + decimal(rows),
        )
    } else if !field.nullable && column.mask() is Some {
        Some("NOT NULL column '"@ + field.name + "' carries a validity bitmap"@)
    } else {
        None
    }
}

/// The first of the columns from `from` on that cannot be bound, in words.
pub open spec fn first_failure(
    schema: Seq<FieldModel>,
    columns: Seq<ColumnModel>,
    rows: nat,
    from: int,
) -> Option<Seq<char>>
    decreases columns.len() - from,
{
    if from < 0 || from >= columns.len() || from >= schema.len() {
        None
    } else if column_failure(schema[from], columns[from], rows) is Some {
        column_failure(schema[from], columns[from], rows)
    } else {
        first_failure(schema, columns, rows, from + 1)
    }
}

/// The rows of a batch: those of its first column, or none.
pub open spec fn batch_rows(columns: Seq<ColumnModel>) -> nat {
    if columns.len() == 0 {
        0
    } else {
        columns[0].rows()
    }
}

/// Why some columns cannot be bound to a schema, if so.
pub open spec fn bind_failure(schema: Seq<FieldModel>, columns: Seq<ColumnModel>) -> Option<
    Seq<char>,
> {
    if schema.len() != columns.len() {
        Some(
            "schema has "@ + decimal(schema.len()) + " fields but "@ + decimal(columns.len())
                + " columns were bound"@,
        )
    } else {
        first_failure(schema, columns, batch_rows(columns), 0)
    }
}

/// The columns fit the schema: one per field, of its type, of one length,
/// and without a bitmap where the field is `NOT NULL`.
pub open spec fn binds(schema: Seq<FieldModel>, columns: Seq<ColumnModel>) -> bool {
    &&& schema.len() == columns.len()
    &&& forall|i: int|
        0 <= i < columns.len() ==> {
            &&& (#[trigger] columns[i]).kind() == schema[i].column_type
            &&& columns[i].rows() == batch_rows(columns)
            &&& columns[i].mask() is Some ==> schema[i].nullable
        }
}

/// No failure from `from` on, exactly when every later column fits.
proof fn lemma_first_failure(
    schema: Seq<FieldModel>,
    columns: Seq<ColumnModel>,
    rows: nat,
    from: int,
)
    requires
        schema.len() == columns.len(),
        0 <= from <= columns.len(),
    ensures
        first_failure(schema, columns, rows, from) is None <==> (forall|i: int|
            from <= i < columns.len() ==> column_failure(schema[i], #[trigger] columns[i], rows)
                is None),
    decreases columns.len() - from,
{
    if from < columns.len() {
        lemma_first_failure(schema, columns, rows, from + 1);
        if first_failure(schema, columns, rows, from) is None {
            assert forall|i: int| from <= i < columns.len() implies column_failure(
                schema[i],
                #[trigger] columns[i],
                rows,
            ) is None by {}
        }
        assert(columns[from] == columns[from]);
    }
}

/// A batch can be made exactly when nothing is wrong with it.
pub proof fn lemma_binds_iff_no_failure(schema: Seq<FieldModel>, columns: Seq<ColumnModel>)
    ensures
        bind_failure(schema, columns) is None <==> binds(schema, columns),
{
    if schema.len() == columns.len() {
        lemma_first_failure(schema, columns, batch_rows(columns), 0);
        if bind_failure(schema, columns) is None {
            assert forall|i: int| 0 <= i < columns.len() implies {
                &&& (#[trigger] columns[i]).kind() == schema[i].column_type
                &&& columns[i].rows() == batch_rows(columns)
                &&& columns[i].mask() is Some ==> schema[i].nullable
            } by {
                assert(column_failure(schema[i], columns[i], batch_rows(columns)) is None);
            }
        }
    }
}

/// What a batch holds.
pub struct BatchModel {
    /// What its fields declare.
    pub schema: Seq<FieldModel>,
    /// What its columns hold.
    pub columns: Seq<ColumnModel>,
}

impl BatchModel {
    /// What every batch keeps.
    pub open spec fn consistent(self) -> bool {
        &&& binds(self.schema, self.columns)
        &&& forall|i: int| 0 <= i < self.schema.len() ==> (#[trigger] self.schema[i]).consistent()
        &&& forall|i: int| 0 <= i < self.columns.len() ==> (#[trigger] self.columns[i]).consistent()
    }
}

/// A schema bound to columns: the unit of data interchange.
pub struct RecordBatch {
    schema: Schema,
    columns: Vec<Column>,
    num_rows: usize,
}

impl View for RecordBatch {
    type V = BatchModel;

    closed spec fn view(&self) -> BatchModel {
        BatchModel { schema: self.schema@, columns: column_models(self.columns@) }
    }
}

impl RecordBatch {
    #[verifier::type_invariant]
    spec fn bound(&self) -> bool {
        &&& self@.consistent()
        &&& self.num_rows == batch_rows(self@.columns)
    }

    /// Why `columns` cannot be bound to `schema`, if so: the first thing
    /// that is wrong, in words.
    pub fn check(schema: &Schema, columns: &Vec<Column>) -> (failure: Option<String>)
        ensures
            match failure {
                Some(text) => bind_failure(schema@, column_models(columns@)) == Some(text@),
                None => bind_failure(schema@, column_models(columns@)) is None && binds(
                    schema@,
                    column_models(columns@),
                ),
            },
    {
        let fields: &[Field] = schema.fields();
        let ghost models = column_models(columns@);
        if fields.len() != columns.len() {
            let mut text = String::from_str("schema has ");
            push_size(&mut text, fields.len());
            text.append(" fields but ");
            push_size(&mut text, columns.len());
            text.append(" columns were bound");
            return Some(text);
        }
        let num_rows: usize = if columns.len() == 0 {
            0
        } else {
            assert(models[0] == columns@[0]@);
            columns[0].len()
        };
        let mut index: usize = 0;
        while index < columns.len()
            invariant
                index <= columns@.len(),
                fields@.len() == columns@.len(),
                field_models(fields@) == schema@,
                models == column_models(columns@),
                num_rows == batch_rows(models),
                bind_failure(schema@, models) == first_failure(
                    schema@,
                    models,
                    num_rows as nat,
                    index as int,
                ),
            decreases columns@.len() - index,
        {
            let field: &Field = &fields[index];
            let column: &Column = &columns[index];
            assert(models[index as int] == column@);
            assert(schema@[index as int] == field@);
            if field.column_type() != column.column_type() {
                let mut text = String::from_str("column '");
                text.append(field.name());
                text.append("' bound with wrong physical type");
                return Some(text);
            }
            if column.len() != num_rows {
                let mut text = String::from_str("column '");
                text.append(field.name());
                text.append("' has ");
                push_size(&mut text, column.len());
                text.append(" rows, expected ");
                push_size(&mut text, num_rows);
                return Some(text);
            }
            if !field.nullable() && column.has_bitmap() {
                let mut text = String::from_str("NOT NULL column '");
                text.append(field.name());
                text.append("' carries a validity bitmap");
                return Some(text);
            }
            index += 1;
        }
        proof {
            lemma_binds_iff_no_failure(schema@, models);
        }
        None
    }

    /// Binds `columns` to `schema`.
    pub fn new(schema: Schema, columns: Vec<Column>) -> (batch: Self)
        requires
            binds(schema@, column_models(columns@)),
        ensures
            batch@ == (BatchModel { schema: schema@, columns: column_models(columns@) }),
    {
        let ghost models = column_models(columns@);
        let mut index: usize = 0;
        while index < columns.len()
            invariant
                index <= columns@.len(),
                models == column_models(columns@),
                forall|i: int| 0 <= i < index ==> (#[trigger] models[i]).consistent(),
            decreases columns@.len() - index,
        {
            let _ = columns[index].len();
            assert(models[index as int] == columns@[index as int]@);
            index += 1;
        }
        let fields: &[Field] = schema.fields();
        let mut position: usize = 0;
        while position < fields.len()
            invariant
                position <= fields@.len(),
                field_models(fields@) == schema@,
                forall|i: int| 0 <= i < position ==> (#[trigger] schema@[i]).consistent(),
            decreases fields@.len() - position,
        {
            let _ = fields[position].logical();
            assert(schema@[position as int] == fields@[position as int]@);
            position += 1;
        }
        let num_rows: usize = if columns.len() == 0 {
            0
        } else {
            assert(models[0] == columns@[0]@);
            columns[0].len()
        };
        RecordBatch { schema, columns, num_rows }
    }

    /// The schema.
    pub fn schema(&self) -> (schema: &Schema)
        ensures
            schema@ == self@.schema,
    {
        &self.schema
    }

    /// The columns, in schema order.
    pub fn columns(&self) -> (columns: &[Column])
        ensures
            column_models(columns@) == self@.columns,
            columns@.len() == self@.columns.len(),
    {
        self.columns.as_slice()
    }

    /// Number of rows (every column agrees). Every batch is consistent.
    pub fn num_rows(&self) -> (rows: usize)
        ensures
            rows == batch_rows(self@.columns),
            self@.consistent(),
    {
        proof {
            use_type_invariant(self);
        }
        self.num_rows
    }
}

impl Clone for RecordBatch {
    fn clone(&self) -> (batch: Self)
        ensures
            batch@ == self@,
    {
        proof {
            use_type_invariant(self);
        }
        let mut columns: Vec<Column> = Vec::new();
        let mut index: usize = 0;
        while index < self.columns.len()
            invariant
                index <= self.columns@.len(),
                column_models(columns@) == column_models(self.columns@).take(index as int),
            decreases self.columns@.len() - index,
        {
            let ghost before = columns@;
            columns.push(self.columns[index].clone());
            index += 1;
            assert(column_models(columns@) =~= column_models(before).push(
                column_models(self.columns@)[index - 1],
            ));
            assert(column_models(self.columns@).take(index as int) =~= column_models(
                self.columns@,
            ).take(index - 1).push(column_models(self.columns@)[index - 1]));
        }
        assert(column_models(self.columns@).take(index as int) =~= column_models(self.columns@));
        RecordBatch { schema: self.schema.clone(), columns, num_rows: self.num_rows }
    }
}

/// Equal schemas, and equal columns by each type's own equality.
pub open spec fn equal_batches(a: BatchModel, b: BatchModel) -> bool {
    &&& a.schema == b.schema
    &&& a.columns.len() == b.columns.len()
    &&& forall|i: int|
        0 <= i < a.columns.len() ==> equal_models(#[trigger] a.columns[i], b.columns[i])
}

impl vstd::std_specs::cmp::PartialEqSpecImpl for RecordBatch {
    open spec fn obeys_eq_spec() -> bool {
        true
    }

    open spec fn eq_spec(&self, other: &Self) -> bool {
        equal_batches(self@, other@)
    }
}

impl PartialEq for RecordBatch {
    fn eq(&self, other: &Self) -> (equal: bool) {
        if self.schema != other.schema || self.columns.len() != other.columns.len() {
            return false;
        }
        let mut index: usize = 0;
        while index < self.columns.len()
            invariant
                index <= self.columns@.len(),
                self.columns@.len() == other.columns@.len(),
                forall|i: int|
                    0 <= i < index ==> equal_models(
                        #[trigger] self@.columns[i],
                        other@.columns[i],
                    ),
            decreases self.columns@.len() - index,
        {
            assert(self@.columns[index as int] == self.columns@[index as int]@);
            assert(other@.columns[index as int] == other.columns@[index as int]@);
            if self.columns[index] != other.columns[index] {
                return false;
            }
            index += 1;
        }
        true
    }
}

/// The value of a row, or `None` where it is null.
pub open spec fn row_value<T>(values: Seq<T>, mask: Option<Seq<bool>>, row: int) -> Option<T> {
    if valid_bits(mask, values.len())[row] {
        Some(values[row])
    } else {
        None
    }
}

/// The text of a key row, or `None` where it is null.
pub open spec fn key_row(
    codes: Seq<u32>,
    mask: Option<Seq<bool>>,
    words: Seq<Seq<char>>,
    row: int,
) -> Option<Seq<char>> {
    if valid_bits(mask, codes.len())[row] {
        Some(words[codes[row] as int])
    } else {
        None
    }
}

/// Both null, or equal by IEEE equality.
pub open spec fn float_rows_agree(a: Option<Float64>, e: Option<Float64>) -> bool {
    match (a, e) {
        (Some(x), Some(y)) => x.same(y),
        (None, None) => true,
        _ => false,
    }
}

/// The same rows are valid, and the valid ones hold the same values: floats
/// by IEEE equality, keys by their text. Values under null slots do not
/// count.
pub open spec fn columns_agree(a: ColumnModel, e: ColumnModel) -> bool {
    match (a, e) {
        (
            ColumnModel::F64 { floats: x, mask: m },
            ColumnModel::F64 { floats: y, mask: n },
        ) => x.len() == y.len() && forall|i: int|
            0 <= i < x.len() ==> float_rows_agree(
                #[trigger] row_value(x, m, i),
                row_value(y, n, i),
            ),
        (
            ColumnModel::I64 { integers: x, mask: m },
            ColumnModel::I64 { integers: y, mask: n },
        ) => x.len() == y.len() && forall|i: int|
            0 <= i < x.len() ==> #[trigger] row_value(x, m, i) == row_value(y, n, i),
        (
            ColumnModel::Key { codes: x, mask: m, words: v },
            ColumnModel::Key { codes: y, mask: n, words: w },
        ) => x.len() == y.len() && forall|i: int|
            0 <= i < x.len() ==> #[trigger] key_row(x, m, v, i) == key_row(y, n, w, i),
        _ => false,
    }
}

/// Logical equality of batches: schema, row count, validity, and values at
/// valid rows.
pub open spec fn batches_agree(a: BatchModel, e: BatchModel) -> bool {
    &&& a.schema == e.schema
    &&& batch_rows(a.columns) == batch_rows(e.columns)
    &&& forall|i: int|
        0 <= i < a.columns.len() && i < e.columns.len() ==> columns_agree(
            #[trigger] a.columns[i],
            e.columns[i],
        )
}

/// Equal batches are logically equal.
pub proof fn lemma_equal_batches_agree(a: BatchModel, e: BatchModel)
    requires
        equal_batches(a, e),
    ensures
        batches_agree(a, e),
{
    assert forall|i: int| 0 <= i < a.columns.len() && i < e.columns.len() implies columns_agree(
        #[trigger] a.columns[i],
        e.columns[i],
    ) by {
        assert(equal_models(a.columns[i], e.columns[i]));
    }
    if a.columns.len() > 0 {
        assert(equal_models(a.columns[0], e.columns[0]));
    }
}

/// Whether two float columns agree at every row.
fn floats_agree(a: &NumericColumn<Float64>, e: &NumericColumn<Float64>) -> (agree: bool)
    ensures
        agree == columns_agree(
            ColumnModel::F64 { floats: a.data(), mask: a.mask() },
            ColumnModel::F64 { floats: e.data(), mask: e.mask() },
        ),
{
    if a.len() != e.len() {
        return false;
    }
    let mut row: usize = 0;
    while row < a.len()
        invariant
            row <= a.data().len(),
            a.data().len() == e.data().len(),
            forall|i: int|
                0 <= i < row ==> float_rows_agree(
                    #[trigger] row_value(a.data(), a.mask(), i),
                    row_value(e.data(), e.mask(), i),
                ),
        decreases a.data().len() - row,
    {
        let ghost x = row_value(a.data(), a.mask(), row as int);
        if a.is_valid(row) != e.is_valid(row) {
            return false;
        }
        if a.is_valid(row) && a.values().as_slice()[row] != e.values().as_slice()[row] {
            return false;
        }
        row += 1;
    }
    true
}

/// Whether two integer columns agree at every row.
fn integers_agree(a: &NumericColumn<i64>, e: &NumericColumn<i64>) -> (agree: bool)
    ensures
        agree == columns_agree(
            ColumnModel::I64 { integers: a.data(), mask: a.mask() },
            ColumnModel::I64 { integers: e.data(), mask: e.mask() },
        ),
{
    if a.len() != e.len() {
        return false;
    }
    let mut row: usize = 0;
    while row < a.len()
        invariant
            row <= a.data().len(),
            a.data().len() == e.data().len(),
            forall|i: int|
                0 <= i < row ==> #[trigger] row_value(a.data(), a.mask(), i) == row_value(
                    e.data(),
                    e.mask(),
                    i,
                ),
        decreases a.data().len() - row,
    {
        let ghost x = row_value(a.data(), a.mask(), row as int);
        if a.is_valid(row) != e.is_valid(row) {
            return false;
        }
        if a.is_valid(row) && a.values().as_slice()[row] != e.values().as_slice()[row] {
            return false;
        }
        row += 1;
    }
    true
}

/// Whether two key columns agree at every row.
fn keys_agree(a: &KeyColumn, e: &KeyColumn) -> (agree: bool)
    ensures
        agree == columns_agree(
            ColumnModel::Key { codes: a.data(), mask: a.mask(), words: a.words() },
            ColumnModel::Key { codes: e.data(), mask: e.mask(), words: e.words() },
        ),
{
    if a.len() != e.len() {
        return false;
    }
    let mut row: usize = 0;
    while row < a.len()
        invariant
            row <= a.data().len(),
            a.data().len() == e.data().len(),
            forall|i: int|
                0 <= i < row ==> #[trigger] key_row(a.data(), a.mask(), a.words(), i) == key_row(
                    e.data(),
                    e.mask(),
                    e.words(),
                    i,
                ),
        decreases a.data().len() - row,
    {
        let ghost x = key_row(a.data(), a.mask(), a.words(), row as int);
        match (a.value_at(row), e.value_at(row)) {
            (Some(left), Some(right)) => {
                if left.to_owned() != right.to_owned() {
                    return false;
                }
            },
            (None, None) => {},
            _ => {
                return false;
            },
        }
        row += 1;
    }
    true
}

/// Logical equality: schema, validity, and values at valid rows (values
/// under null slots are unspecified across the interface).
pub fn logically_equal(actual: &RecordBatch, expected: &RecordBatch) -> (equal: bool)
    ensures
        equal == batches_agree(actual@, expected@),
{
    if *actual.schema() != *expected.schema() || actual.num_rows() != expected.num_rows() {
        return false;
    }
    let a: &[Column] = actual.columns();
    let e: &[Column] = expected.columns();
    let mut index: usize = 0;
    while index < a.len() && index < e.len()
        invariant
            index <= a@.len(),
            index <= e@.len(),
            column_models(a@) == actual@.columns,
            column_models(e@) == expected@.columns,
            forall|i: int|
                0 <= i < index ==> columns_agree(
                    #[trigger] actual@.columns[i],
                    expected@.columns[i],
                ),
        decreases a@.len() - index,
    {
        assert(actual@.columns[index as int] == a@[index as int]@);
        assert(expected@.columns[index as int] == e@[index as int]@);
        let agree: bool = match (&a[index], &e[index]) {
            (
                Column::Numeric(NumericData::F64(x)),
                Column::Numeric(NumericData::F64(y)),
            ) => floats_agree(x, y),
            (
                Column::Numeric(NumericData::I64(x)),
                Column::Numeric(NumericData::I64(y)),
            ) => integers_agree(x, y),
            (Column::Key(x), Column::Key(y)) => keys_agree(x, y),
            _ => false,
        };
        if !agree {
            return false;
        }
        index += 1;
    }
    true
}

} // verus!
