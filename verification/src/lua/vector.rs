//! Whole-column arithmetic for scripts: owned vectors, operands, rolling
//! windows, series transforms, and columns a script returns.
//!
//! A vector owns its elements, so unlike a view it stays good after the call
//! that made it. Operators work element by element over any mix of numeric
//! views, vectors and numbers, and numbers broadcast. Integers convert to
//! floats exactly or not at all. A null on either side makes the element
//! null, and columns must agree on length.
//!
//! Rolling frames are trailing: row `i` covers the last `min(i + 1, w)`
//! rows, and nothing that has left them. Rows a transform has nothing to refer back to come out null, never
//! filled with a stand-in.
//!
//! What is computed on floats is left to the caller: the functions here say
//! which elements meet, in which order, and which rows are null.
use crate::float64::{all_finite, are_finite, exact_float, int_as_f64_exact, Float64};
use crate::lua::values::{answer, element_index, index_spec, ColumnView, Reply, ReplyModel};
use vstd::prelude::*;

verus! {

/// An owned float column: one value or null per row.
#[derive(Debug)]
pub struct Vector {
    elements: Vec<Option<Float64>>,
}

impl View for Vector {
    type V = Seq<Option<Float64>>;

    closed spec fn view(&self) -> Seq<Option<Float64>> {
        self.elements@
    }
}

impl Vector {
    /// A vector of the given elements.
    pub fn new(elements: Vec<Option<Float64>>) -> (vector: Vector)
        ensures
            vector@ == elements@,
    {
        Vector { elements }
    }

    /// A vector of `len` nulls: what arithmetic with the null sentinel gives
    /// when the other operand is a column.
    pub fn nulls(len: usize) -> (vector: Vector)
        ensures
            vector@ == Seq::new(len as nat, |i: int| None::<Float64>),
    {
        let mut elements: Vec<Option<Float64>> = Vec::new();
        for i in 0..len
            invariant
                elements@ == Seq::new(i as nat, |j: int| None::<Float64>),
        {
            elements.push(None);
        }
        Vector { elements }
    }

    /// Number of elements.
    pub fn len(&self) -> (len: usize)
        ensures
            len == self@.len(),
    {
        self.elements.len()
    }

    /// The element at `offset`; none if null.
    pub fn get(&self, offset: usize) -> (element: Option<Float64>)
        requires
            offset < self@.len(),
        ensures
            element == self@[offset as int],
    {
        self.elements[offset]
    }

    /// The elements, in order.
    pub fn elements(&self) -> (elements: &[Option<Float64>])
        ensures
            elements@ == self@,
    {
        self.elements.as_slice()
    }

    /// Whether no element is null.
    pub fn is_dense(&self) -> (dense: bool)
        ensures
            dense == (forall|i: int| 0 <= i < self@.len() ==> self@[i] is Some),
    {
        let len: usize = self.elements.len();
        for i in 0..len
            invariant
                len == self@.len(),
                len == self.elements@.len(),
                forall|j: int| 0 <= j < i ==> self@[j] is Some,
        {
            if self.elements[i].is_none() {
                assert(self@[i as int] is None);
                return false;
            }
        }
        true
    }

    /// Reads an element, as a view's element is read.
    pub fn index(&self, index: Option<i64>) -> (reply: Result<Reply, &'static str>)
        ensures
            answer(reply) == match index_spec(index, self@.len()) {
                Ok(offset) => Ok(
                    match self@[offset as int] {
                        Some(value) => ReplyModel::Number(value),
                        None => ReplyModel::Null,
                    },
                ),
                Err(message) => Err(message),
            },
    {
        let offset: usize = match element_index(index, self.len()) {
            Ok(offset) => offset,
            Err(message) => {
                return Err(message);
            },
        };
        match self.get(offset) {
            Some(value) => Ok(Reply::Number(value)),
            None => Ok(Reply::Null),
        }
    }
}

/// What a script put in an argument or result position, as far as vector
/// operations tell values apart.
#[derive(Clone, Copy)]
pub enum Argument<'a> {
    /// Nil, or nothing.
    Nil,
    /// The null sentinel.
    Null,
    /// A number of the integer subtype.
    Integer(i64),
    /// A number of the float subtype.
    Number(Float64),
    /// An owned vector.
    Vector(&'a Vector),
    /// An input view.
    View {
        /// The column.
        view: ColumnView<'a>,
        /// The generation the view was bound in.
        born: u64,
        /// The interpreter's generation now.
        generation: u64,
    },
    /// Anything else.
    Other,
}

impl<'a> Argument<'a> {
    /// A view has one validity bit per element.
    pub open spec fn aligned(&self) -> bool {
        self matches Argument::View { view, .. } ==> view.aligned()
    }
}

/// One element as arithmetic sees it.
pub enum Entry {
    /// A float.
    Value(Float64),
    /// Null.
    Null,
    /// An integer that is no float exactly.
    Inexact,
}

/// An operand of a vector operation.
pub enum OperandModel {
    /// One entry per row.
    Column(Seq<Entry>),
    /// The same number in every row.
    Number(Float64),
    /// Null in every row.
    Null,
}

/// How arithmetic sees what a view's element reads as.
pub open spec fn entry_of(cell: ReplyModel) -> Entry {
    match cell {
        ReplyModel::Number(float) => Entry::Value(float),
        ReplyModel::Integer(integer) => match exact_float(integer as int) {
            Some(float) => Entry::Value(float),
            None => Entry::Inexact,
        },
        _ => Entry::Null,
    }
}

/// How arithmetic sees a vector's element.
pub open spec fn entry_of_element(element: Option<Float64>) -> Entry {
    match element {
        Some(float) => Entry::Value(float),
        None => Entry::Null,
    }
}

/// The entries of a view.
pub open spec fn view_entries(view: ColumnView<'_>) -> Seq<Entry> {
    Seq::new(view.rows(), |i: int| entry_of(view.cell(i)))
}

/// The entries of a vector.
pub open spec fn vector_entries(elements: Seq<Option<Float64>>) -> Seq<Entry> {
    elements.map_values(|element: Option<Float64>| entry_of_element(element))
}

/// One operand of a vector operation.
#[derive(Clone, Copy)]
pub enum Operand<'a> {
    /// A numeric view; integers convert exactly or not at all.
    View(ColumnView<'a>),
    /// An owned vector.
    Vector(&'a Vector),
    /// A number, broadcast to every row.
    Number(Float64),
    /// The null sentinel: every row of the result is null.
    Null,
}

impl<'a> View for Operand<'a> {
    type V = OperandModel;

    open spec fn view(&self) -> OperandModel {
        match self {
            Operand::View(view) => OperandModel::Column(view_entries(*view)),
            Operand::Vector(vector) => OperandModel::Column(vector_entries(vector@)),
            Operand::Number(value) => OperandModel::Number(*value),
            Operand::Null => OperandModel::Null,
        }
    }
}

/// The entry an operand has in a row.
pub open spec fn entry_at(operand: OperandModel, i: int) -> Entry {
    match operand {
        OperandModel::Column(entries) => entries[i],
        OperandModel::Number(value) => Entry::Value(value),
        OperandModel::Null => Entry::Null,
    }
}

impl<'a> Operand<'a> {
    /// A view is numeric and has one validity bit per element.
    pub open spec fn numeric(&self) -> bool {
        self matches Operand::View(view) ==> view.aligned() && !(view is Key)
    }

    /// The number of rows of a column; none for a scalar.
    pub fn len(&self) -> (len: Option<usize>)
        ensures
            match len {
                Some(n) => self@ matches OperandModel::Column(entries) && entries.len() == n,
                None => !(self@ is Column),
            },
    {
        match self {
            Operand::View(view) => Some(view.len()),
            Operand::Vector(vector) => Some(vector.len()),
            Operand::Number(_) => None,
            Operand::Null => None,
        }
    }

    /// The element in row `offset`: none for a null, an error for an integer
    /// that is no float exactly.
    pub fn element(&self, offset: usize) -> (element: Result<Option<Float64>, &'static str>)
        requires
            self.numeric(),
            self@ matches OperandModel::Column(entries) ==> offset < entries.len(),
        ensures
            match element {
                Ok(Some(value)) => entry_at(self@, offset as int) == Entry::Value(value),
                Ok(None) => entry_at(self@, offset as int) == Entry::Null,
                Err(message) => entry_at(self@, offset as int) == Entry::Inexact && message@
                    == "i64 element does not fit f64 exactly"@,
            },
    {
        match self {
            Operand::Number(value) => Ok(Some(*value)),
            Operand::Null => Ok(None),
            Operand::Vector(vector) => Ok(vector.get(offset)),
            Operand::View(view) => {
                if !view.is_valid(offset) {
                    return Ok(None);
                }
                match view {
                    ColumnView::F64 { floats, .. } => Ok(Some(floats[offset])),
                    ColumnView::I64 { integers, .. } => match int_as_f64_exact(integers[offset]) {
                        Some(value) => Ok(Some(value)),
                        None => Err("i64 element does not fit f64 exactly"),
                    },
                    ColumnView::Key { .. } => Ok(None),
                }
            },
        }
    }

    /// Whether no row is null.
    pub fn is_dense(&self) -> (dense: bool)
        requires
            self.numeric(),
        ensures
            self@ matches OperandModel::Column(entries) ==> dense == (forall|i: int|
                0 <= i < entries.len() ==> entries[i] != Entry::Null),
            self@ is Number ==> dense,
            self@ is Null ==> !dense,
    {
        match self {
            Operand::View(view) => {
                let dense = view.is_dense();
                proof {
                    let entries = view_entries(*view);
                    if dense {
                        assert forall|i: int| 0 <= i < entries.len() implies entries[i]
                            != Entry::Null by {
                            assert(view.valid(i));
                        }
                    } else {
                        let i = choose|i: int| 0 <= i < view.rows() && !view.valid(i);
                        assert(entries[i] == Entry::Null);
                    }
                }
                dense
            },
            Operand::Vector(vector) => {
                let dense = vector.is_dense();
                proof {
                    let entries = vector_entries(vector@);
                    if dense {
                        assert forall|i: int| 0 <= i < entries.len() implies entries[i]
                            != Entry::Null by {
                            assert(vector@[i] is Some);
                        }
                    } else {
                        let i = choose|i: int| 0 <= i < vector@.len() && !(vector@[i] is Some);
                        assert(entries[i] == Entry::Null);
                    }
                }
                dense
            },
            Operand::Number(_) => true,
            Operand::Null => false,
        }
    }
}

/// The operand an argument stands for, or why it stands for none.
pub open spec fn operand_spec(argument: Argument<'_>) -> Result<OperandModel, Seq<char>> {
    match argument {
        Argument::Integer(integer) => match exact_float(integer as int) {
            Some(value) => Ok(OperandModel::Number(value)),
            None => Err("integer operand does not fit f64 exactly"@),
        },
        Argument::Number(value) => Ok(OperandModel::Number(value)),
        Argument::Null => Ok(OperandModel::Null),
        Argument::Vector(vector) => Ok(OperandModel::Column(vector_entries(vector@))),
        Argument::View { view, born, generation } => if born != generation {
            Err("view used outside its call"@)
        } else if view is Key {
            Err("keys are not arithmetic (codes are identities)"@)
        } else {
            Ok(OperandModel::Column(view_entries(view)))
        },
        _ => Err("vector arithmetic takes views, vectors, and numbers"@),
    }
}

/// Reads an argument as an operand. Key views are refused: codes are
/// identities, not quantities.
pub fn operand<'a>(argument: &Argument<'a>) -> (operand: Result<Operand<'a>, &'static str>)
    requires
        argument.aligned(),
    ensures
        match operand {
            Ok(operand) => operand.numeric() && operand_spec(*argument) == Ok::<
                OperandModel,
                Seq<char>,
            >(operand@),
            Err(message) => operand_spec(*argument) == Err::<OperandModel, Seq<char>>(message@),
        },
{
    match argument {
        Argument::Integer(integer) => match int_as_f64_exact(*integer) {
            Some(value) => Ok(Operand::Number(value)),
            None => Err("integer operand does not fit f64 exactly"),
        },
        Argument::Number(value) => Ok(Operand::Number(*value)),
        Argument::Null => Ok(Operand::Null),
        Argument::Vector(vector) => Ok(Operand::Vector(*vector)),
        Argument::View { view, born, generation } => {
            if *born != *generation {
                return Err("view used outside its call");
            }
            if view.is_key() {
                return Err("keys are not arithmetic (codes are identities)");
            }
            Ok(Operand::View(*view))
        },
        _ => Err("vector arithmetic takes views, vectors, and numbers"),
    }
}

/// The number of rows two operands share.
pub open spec fn length_spec(lhs: OperandModel, rhs: OperandModel) -> Result<nat, Seq<char>> {
    match (lhs, rhs) {
        (OperandModel::Column(a), OperandModel::Column(b)) => if a.len() == b.len() {
            Ok(a.len())
        } else {
            Err("vector operands have different lengths"@)
        },
        (OperandModel::Column(a), _) => Ok(a.len()),
        (_, OperandModel::Column(b)) => Ok(b.len()),
        _ => Err("vector operator on two scalars"@),
    }
}

/// The number of rows two operands share: columns must agree, and one side
/// must be a column.
pub fn common_length(lhs: &Operand<'_>, rhs: &Operand<'_>) -> (len: Result<usize, &'static str>)
    ensures
        match len {
            Ok(n) => length_spec(lhs@, rhs@) == Ok::<nat, Seq<char>>(n as nat),
            Err(message) => length_spec(lhs@, rhs@) == Err::<nat, Seq<char>>(message@),
        },
{
    match (lhs.len(), rhs.len()) {
        (Some(a), Some(b)) => {
            if a != b {
                return Err("vector operands have different lengths");
            }
            Ok(a)
        },
        (Some(len), None) => Ok(len),
        (None, Some(len)) => Ok(len),
        (None, None) => Err("vector operator on two scalars"),
    }
}

/// A list or an error, as a model.
pub open spec fn listed<T>(result: Result<Vec<T>, &'static str>) -> Result<Seq<T>, Seq<char>> {
    match result {
        Ok(items) => Ok(items@),
        Err(message) => Err(message@),
    }
}

/// A vector or an error, as a model.
pub open spec fn composed(result: Result<Vector, &'static str>) -> Result<
    Seq<Option<Float64>>,
    Seq<char>,
> {
    match result {
        Ok(vector) => Ok(vector@),
        Err(message) => Err(message@),
    }
}

/// None of the first `n` rows holds an integer that is no float exactly.
pub open spec fn exact_rows(operand: OperandModel, n: nat) -> bool {
    forall|i: int| 0 <= i < n ==> entry_at(operand, i) != Entry::Inexact
}

/// The two floats that meet in a row; none if either side is null there.
pub open spec fn meeting(lhs: OperandModel, rhs: OperandModel, i: int) -> Option<
    (Float64, Float64),
> {
    match (entry_at(lhs, i), entry_at(rhs, i)) {
        (Entry::Value(a), Entry::Value(b)) => Some((a, b)),
        _ => None,
    }
}

/// What a binary operator is applied to, row by row, or why it is not.
pub open spec fn binary_spec(lhs: Argument<'_>, rhs: Argument<'_>) -> Result<
    Seq<Option<(Float64, Float64)>>,
    Seq<char>,
> {
    match (operand_spec(lhs), operand_spec(rhs)) {
        (Err(message), _) => Err(message),
        (_, Err(message)) => Err(message),
        (Ok(a), Ok(b)) => match length_spec(a, b) {
            Err(message) => Err(message),
            Ok(n) => if exact_rows(a, n) && exact_rows(b, n) {
                Ok(Seq::new(n, |i: int| meeting(a, b, i)))
            } else {
                Err("i64 element does not fit f64 exactly"@)
            },
        },
    }
}

/// Lines up the operands of a binary operator: per row the two floats it is
/// to be applied to, or none where the result is null.
pub fn vector_binary(lhs: &Argument<'_>, rhs: &Argument<'_>) -> (rows: Result<
    Vec<Option<(Float64, Float64)>>,
    &'static str,
>)
    requires
        lhs.aligned(),
        rhs.aligned(),
    ensures
        listed(rows) == binary_spec(*lhs, *rhs),
{
    let a: Operand<'_> = match operand(lhs) {
        Ok(operand) => operand,
        Err(message) => {
            return Err(message);
        },
    };
    let b: Operand<'_> = match operand(rhs) {
        Ok(operand) => operand,
        Err(message) => {
            return Err(message);
        },
    };
    let len: usize = match common_length(&a, &b) {
        Ok(len) => len,
        Err(message) => {
            return Err(message);
        },
    };
    let mut rows: Vec<Option<(Float64, Float64)>> = Vec::new();
    for offset in 0..len
        invariant
            a.numeric(),
            b.numeric(),
            operand_spec(*lhs) == Ok::<OperandModel, Seq<char>>(a@),
            operand_spec(*rhs) == Ok::<OperandModel, Seq<char>>(b@),
            length_spec(a@, b@) == Ok::<nat, Seq<char>>(len as nat),
            exact_rows(a@, offset as nat),
            exact_rows(b@, offset as nat),
            rows@ == Seq::new(offset as nat, |i: int| meeting(a@, b@, i)),
    {
        let x = match a.element(offset) {
            Ok(element) => element,
            Err(message) => {
                assert(!exact_rows(a@, len as nat));
                return Err(message);
            },
        };
        let y = match b.element(offset) {
            Ok(element) => element,
            Err(message) => {
                assert(!exact_rows(b@, len as nat));
                return Err(message);
            },
        };
        rows.push(
            match (x, y) {
                (Some(x), Some(y)) => Some((x, y)),
                _ => None,
            },
        );
    }
    Ok(rows)
}

/// What negating an argument gives.
pub open spec fn negate_spec(argument: Argument<'_>) -> Result<Seq<Option<Float64>>, Seq<char>> {
    match operand_spec(argument) {
        Err(message) => Err(message),
        Ok(OperandModel::Column(entries)) => if exact_rows(
            OperandModel::Column(entries),
            entries.len(),
        ) {
            Ok(
                entries.map_values(
                    |entry: Entry|
                        match entry {
                            Entry::Value(value) => Some(value.negated()),
                            _ => None,
                        },
                ),
            )
        } else {
            Err("i64 element does not fit f64 exactly"@)
        },
        _ => Err("vector negation of a scalar"@),
    }
}

/// Unary minus: every value with its sign flipped, nulls kept.
pub fn vector_negate(argument: &Argument<'_>) -> (negated: Result<Vector, &'static str>)
    requires
        argument.aligned(),
    ensures
        composed(negated) == negate_spec(*argument),
{
    let source: Operand<'_> = match operand(argument) {
        Ok(operand) => operand,
        Err(message) => {
            return Err(message);
        },
    };
    let len: usize = match source.len() {
        Some(len) => len,
        None => {
            return Err("vector negation of a scalar");
        },
    };
    let ghost entries = source@->Column_0;
    let mut elements: Vec<Option<Float64>> = Vec::new();
    for offset in 0..len
        invariant
            source.numeric(),
            operand_spec(*argument) == Ok::<OperandModel, Seq<char>>(source@),
            source@ == OperandModel::Column(entries),
            len == entries.len(),
            exact_rows(source@, offset as nat),
            elements@.len() == offset,
            forall|i: int|
                0 <= i < offset ==> elements@[i] == (match #[trigger] entries[i] {
                    Entry::Value(value) => Some(value.negated()),
                    _ => None,
                }),
    {
        match source.element(offset) {
            Ok(Some(value)) => {
                elements.push(Some(value.negate()));
            },
            Ok(None) => {
                elements.push(None);
            },
            Err(message) => {
                assert(!exact_rows(source@, len as nat));
                return Err(message);
            },
        }
    }
    assert(exact_rows(source@, entries.len()));
    assert(negate_spec(*argument) is Ok);
    assert(elements@ =~= negate_spec(*argument)->Ok_0);
    Ok(Vector::new(elements))
}

/// The entries of an argument that is a column without nulls, or why it is
/// none.
pub open spec fn dense_spec(argument: Argument<'_>) -> Result<Seq<Entry>, Seq<char>> {
    match operand_spec(argument) {
        Err(message) => Err(message),
        Ok(OperandModel::Column(entries)) => if forall|i: int|
            0 <= i < entries.len() ==> entries[i] != Entry::Null {
            Ok(entries)
        } else {
            Err("rolling combinators take non-null input; this column carries NULLs"@)
        },
        _ => Err("rolling combinators take columns, not scalars"@),
    }
}

/// Reads an argument as a column without nulls.
pub fn dense_operand<'a>(argument: &Argument<'a>) -> (operand: Result<Operand<'a>, &'static str>)
    requires
        argument.aligned(),
    ensures
        match operand {
            Ok(operand) => operand.numeric() && operand@ is Column && dense_spec(*argument)
                == Ok::<Seq<Entry>, Seq<char>>(operand@->Column_0),
            Err(message) => dense_spec(*argument) == Err::<Seq<Entry>, Seq<char>>(message@),
        },
{
    let source: Operand<'a> = match operand(argument) {
        Ok(operand) => operand,
        Err(message) => {
            return Err(message);
        },
    };
    match source.len() {
        Some(_) => {},
        None => {
            return Err("rolling combinators take columns, not scalars");
        },
    }
    if !source.is_dense() {
        return Err("rolling combinators take non-null input; this column carries NULLs");
    }
    Ok(source)
}

/// The floats of a column without nulls, or that one of its integers is no
/// float exactly.
pub open spec fn dense_values(entries: Seq<Entry>) -> Result<Seq<Float64>, Seq<char>> {
    if forall|i: int| 0 <= i < entries.len() ==> entries[i] != Entry::Inexact {
        Ok(entries.map_values(|entry: Entry| entry->Value_0))
    } else {
        Err("i64 element does not fit f64 exactly"@)
    }
}

/// Reads out a column without nulls.
fn read_dense(source: &Operand<'_>) -> (values: Result<Vec<Float64>, &'static str>)
    requires
        source.numeric(),
        source@ is Column,
        forall|i: int| 0 <= i < source@->Column_0.len() ==> source@->Column_0[i] != Entry::Null,
    ensures
        listed(values) == dense_values(source@->Column_0),
{
    let ghost entries = source@->Column_0;
    let len: usize = match source.len() {
        Some(len) => len,
        None => 0,
    };
    let mut values: Vec<Float64> = Vec::new();
    for offset in 0..len
        invariant
            source.numeric(),
            source@ == OperandModel::Column(entries),
            len == entries.len(),
            forall|i: int| 0 <= i < entries.len() ==> entries[i] != Entry::Null,
            values@.len() == offset,
            forall|i: int|
                0 <= i < offset ==> #[trigger] entries[i] == Entry::Value(values@[i]),
    {
        match source.element(offset) {
            Ok(Some(value)) => {
                values.push(value);
            },
            Ok(None) => {
                assert(entries[offset as int] == Entry::Null);
                return Ok(values);
            },
            Err(message) => {
                assert(entries[offset as int] == Entry::Inexact);
                return Err(message);
            },
        }
    }
    assert(values@ =~= entries.map_values(|entry: Entry| entry->Value_0));
    Ok(values)
}

/// A positive width, or why the argument is none.
pub open spec fn window_spec(window: Option<i64>) -> Result<nat, Seq<char>> {
    match window {
        Some(width) => if width < 1 {
            Err("the window width must be a positive integer"@)
        } else {
            Ok(width as nat)
        },
        None => Err("the window width must be a positive integer"@),
    }
}

/// Reads a window width: a positive integer.
pub fn window_argument(window: Option<i64>) -> (width: Result<u64, &'static str>)
    ensures
        match width {
            Ok(width) => window_spec(window) == Ok::<nat, Seq<char>>(width as nat),
            Err(message) => window_spec(window) == Err::<nat, Seq<char>>(message@),
        },
{
    match window {
        Some(width) => {
            if width < 1 {
                return Err("the window width must be a positive integer");
            }
            Ok(width as u64)
        },
        None => Err("the window width must be a positive integer"),
    }
}

/// What a rolling window over one column runs on: its floats and the width.
pub open spec fn rolling_spec(x: Argument<'_>, window: Option<i64>) -> Result<
    (Seq<Float64>, nat),
    Seq<char>,
> {
    match dense_spec(x) {
        Err(message) => Err(message),
        Ok(entries) => match window_spec(window) {
            Err(message) => Err(message),
            Ok(width) => match dense_values(entries) {
                Err(message) => Err(message),
                Ok(values) => Ok((values, width)),
            },
        },
    }
}

/// Reads the arguments of a rolling combinator over one column.
pub fn rolling_column(x: &Argument<'_>, window: Option<i64>) -> (read: Result<
    (Vec<Float64>, u64),
    &'static str,
>)
    requires
        x.aligned(),
    ensures
        match read {
            Ok((values, width)) => rolling_spec(*x, window) == Ok::<(Seq<Float64>, nat), Seq<char>>(
                (values@, width as nat),
            ),
            Err(message) => rolling_spec(*x, window) == Err::<(Seq<Float64>, nat), Seq<char>>(
                message@,
            ),
        },
{
    let source: Operand<'_> = match dense_operand(x) {
        Ok(source) => source,
        Err(message) => {
            return Err(message);
        },
    };
    let width: u64 = match window_argument(window) {
        Ok(width) => width,
        Err(message) => {
            return Err(message);
        },
    };
    match read_dense(&source) {
        Ok(values) => Ok((values, width)),
        Err(message) => Err(message),
    }
}

/// What a rolling window over two columns runs on: their floats, row by row,
/// and the width.
pub open spec fn rolling_pair_spec(x: Argument<'_>, y: Argument<'_>, window: Option<i64>) -> Result<
    (Seq<Float64>, Seq<Float64>, nat),
    Seq<char>,
> {
    match (dense_spec(x), dense_spec(y)) {
        (Err(message), _) => Err(message),
        (_, Err(message)) => Err(message),
        (Ok(a), Ok(b)) => if a.len() != b.len() {
            Err("vector operands have different lengths"@)
        } else {
            match window_spec(window) {
                Err(message) => Err(message),
                Ok(width) => match (dense_values(a), dense_values(b)) {
                    (Ok(xs), Ok(ys)) => Ok((xs, ys, width)),
                    _ => Err("i64 element does not fit f64 exactly"@),
                },
            }
        },
    }
}

/// Reads the arguments of a rolling combinator over two columns.
pub fn rolling_pair(x: &Argument<'_>, y: &Argument<'_>, window: Option<i64>) -> (read: Result<
    (Vec<Float64>, Vec<Float64>, u64),
    &'static str,
>)
    requires
        x.aligned(),
        y.aligned(),
    ensures
        match read {
            Ok((xs, ys, width)) => rolling_pair_spec(*x, *y, window) == Ok::<
                (Seq<Float64>, Seq<Float64>, nat),
                Seq<char>,
            >((xs@, ys@, width as nat)),
            Err(message) => rolling_pair_spec(*x, *y, window) == Err::<
                (Seq<Float64>, Seq<Float64>, nat),
                Seq<char>,
            >(message@),
        },
{
    let a: Operand<'_> = match dense_operand(x) {
        Ok(source) => source,
        Err(message) => {
            return Err(message);
        },
    };
    let b: Operand<'_> = match dense_operand(y) {
        Ok(source) => source,
        Err(message) => {
            return Err(message);
        },
    };
    match common_length(&a, &b) {
        Ok(_) => {},
        Err(message) => {
            return Err(message);
        },
    }
    let width: u64 = match window_argument(window) {
        Ok(width) => width,
        Err(message) => {
            return Err(message);
        },
    };
    let xs = match read_dense(&a) {
        Ok(values) => values,
        Err(message) => {
            return Err(message);
        },
    };
    match read_dense(&b) {
        Ok(ys) => Ok((xs, ys, width)),
        Err(message) => Err(message),
    }
}

/// The first row of the trailing frame that ends at `offset`.
pub open spec fn frame_start(offset: nat, width: nat) -> nat {
    if offset + 1 >= width {
        (offset + 1 - width) as nat
    } else {
        0
    }
}

/// The rows of the trailing frame that ends at `offset`: the last `width`
/// rows, or as many as there are.
pub open spec fn frame(offset: nat, width: nat) -> Set<int> {
    Set::new(|row: int| frame_start(offset, width) <= row <= offset)
}

/// One step of a running sum over a trailing frame. The row itself always
/// joins first.
#[derive(Clone, Copy, Debug, PartialEq, Eq, Structural)]
pub struct SumStep {
    /// The row that leaves the frame.
    pub leaves: Option<usize>,
    /// Where to start over: the whole frame from this row is summed afresh,
    /// so that rounding never builds up over more than one width. A
    /// [`FrameCheck`] can ask for it too.
    pub recompute_from: Option<usize>,
    /// The number of rows in the frame.
    pub rows: usize,
}

/// The row that leaves the frame at `offset`.
pub open spec fn leaving(offset: nat, width: nat) -> Option<int> {
    if offset >= width {
        Some(offset - width)
    } else {
        None
    }
}

/// What a running sum does at row `offset`.
pub fn sum_step(offset: usize, width: u64) -> (step: SumStep)
    requires
        width >= 1,
        offset < usize::MAX,
    ensures
        match step.leaves {
            Some(row) => leaving(offset as nat, width as nat) == Some(row as int),
            None => leaving(offset as nat, width as nat) is None,
        },
        match step.recompute_from {
            Some(row) => (offset + 1) % (width as int) == 0 && row == frame_start(
                offset as nat,
                width as nat,
            ),
            None => (offset + 1) % (width as int) != 0,
        },
        step.rows == offset + 1 - frame_start(offset as nat, width as nat),
        step.rows == if offset + 1 <= width {
            offset + 1
        } else {
            width as int
        },
{
    let end: u64 = offset as u64 + 1;
    let start: u64 = if end >= width {
        end - width
    } else {
        0
    };
    let leaves: Option<usize> = if offset as u64 >= width {
        Some((offset as u64 - width) as usize)
    } else {
        None
    };
    let recompute_from: Option<usize> = if end % width == 0 {
        Some(start as usize)
    } else {
        None
    };
    SumStep { leaves, recompute_from, rows: (end - start) as usize }
}

/// How many of some terms are not finite.
pub open spec fn odd_terms(terms: Seq<Float64>) -> nat
    decreases terms.len(),
{
    if terms.len() == 0 {
        0
    } else {
        odd_terms(terms.drop_last()) + if terms.last().finite() {
            0nat
        } else {
            1nat
        }
    }
}

/// The terms of the trailing frame that ends at `offset`.
pub open spec fn frame_terms(terms: Seq<Float64>, offset: nat, width: nat) -> Seq<Float64> {
    terms.subrange(frame_start(offset, width) as int, (offset + 1) as int)
}

/// How many terms are not finite in the frame before row `offset`.
pub open spec fn odd_before(terms: Seq<Float64>, offset: nat, width: nat) -> nat {
    if offset == 0 {
        0
    } else {
        odd_terms(frame_terms(terms, (offset - 1) as nat, width))
    }
}

/// Whether what runs over a frame no longer answers for it: the frame is
/// finite, but what has just left is not, or what is running is not.
pub open spec fn spoiled(
    terms: Seq<Float64>,
    offset: nat,
    width: nat,
    running: Seq<Float64>,
) -> bool {
    &&& odd_terms(frame_terms(terms, offset, width)) == 0
    &&& (leaving(offset, width) matches Some(row) && !terms[row].finite()) || !all_finite(running)
}

/// What a step leaves to be done once its row has joined and another has
/// left.
#[derive(Clone, Copy, Debug, PartialEq, Eq, Structural)]
pub struct FrameCheck {
    /// Where to start over, because what is running took in something that
    /// is not in the frame and cannot be taken out of a sum again.
    pub restart_from: Option<usize>,
    /// The number of terms in the frame that are not finite.
    pub odd: usize,
}

/// Checks what runs over the frame that ends at `offset`, where `odd` terms
/// were not finite in the frame before. A row covers its frame alone: a term
/// that is not finite, or a total that left the finite range, is forgotten
/// as soon as the frame is rid of it.
pub fn frame_check(
    terms: &[Float64],
    offset: usize,
    width: u64,
    odd: usize,
    running: &[Float64],
) -> (check: FrameCheck)
    requires
        width >= 1,
        offset < terms@.len(),
        odd == odd_before(terms@, offset as nat, width as nat),
    ensures
        check.odd == odd_terms(frame_terms(terms@, offset as nat, width as nat)),
        match check.restart_from {
            Some(row) => spoiled(terms@, offset as nat, width as nat, running@) && row
                == frame_start(offset as nat, width as nat),
            None => !spoiled(terms@, offset as nat, width as nat, running@),
        },
{
    proof {
        lemma_odd_slides(terms@, offset as nat, width as nat);
    }
    let gone: bool = offset as u64 >= width && !terms[(offset as u64 - width) as usize].is_finite();
    let kept: usize = if gone {
        odd - 1
    } else {
        odd
    };
    proof {
        lemma_odd_bound(frame_terms(terms@, offset as nat, width as nat));
    }
    let now: usize = if terms[offset].is_finite() {
        kept
    } else {
        kept + 1
    };
    let sound: bool = are_finite(running);
    let restart_from: Option<usize> = if now == 0 && (gone || !sound) {
        let end: u64 = offset as u64 + 1;
        if end >= width {
            Some((end - width) as usize)
        } else {
            Some(0)
        }
    } else {
        None
    };
    FrameCheck { restart_from, odd: now }
}

/// There are no more odd terms than terms, and the odd ones are those that
/// are not finite.
pub proof fn lemma_odd_bound(terms: Seq<Float64>)
    ensures
        odd_terms(terms) <= terms.len(),
        odd_terms(terms) == 0 <==> all_finite(terms),
    decreases terms.len(),
{
    if terms.len() > 0 {
        let rest = terms.drop_last();
        lemma_odd_bound(rest);
        if all_finite(terms) {
            assert forall|i: int| 0 <= i < rest.len() implies (#[trigger] rest[i]).finite() by {
                assert(terms[i].finite());
            }
            assert(terms[terms.len() - 1].finite());
        }
        if odd_terms(terms) == 0 {
            assert forall|i: int| 0 <= i < terms.len() implies (#[trigger] terms[i]).finite() by {
                if i < rest.len() {
                    assert(rest[i].finite());
                }
            }
        }
    }
}

/// The first term counts as the last does.
proof fn lemma_odd_first(terms: Seq<Float64>)
    requires
        terms.len() > 0,
    ensures
        odd_terms(terms) == odd_terms(terms.drop_first()) + if terms[0].finite() {
            0nat
        } else {
            1nat
        },
    decreases terms.len(),
{
    if terms.len() == 1 {
        assert(terms.drop_last() =~= Seq::<Float64>::empty());
        assert(terms.drop_first() =~= Seq::<Float64>::empty());
    } else {
        lemma_odd_first(terms.drop_last());
        assert(terms.drop_first().drop_last() =~= terms.drop_last().drop_first());
    }
}

/// From frame to frame the odd terms change by the one that joins and the
/// one that leaves.
proof fn lemma_odd_slides(terms: Seq<Float64>, offset: nat, width: nat)
    requires
        width >= 1,
        offset < terms.len(),
    ensures
        ({
            let gone = leaving(offset, width) matches Some(row) && !terms[row].finite();
            &&& gone ==> odd_before(terms, offset, width) >= 1
            &&& odd_terms(frame_terms(terms, offset, width)) == odd_before(terms, offset, width) - (
            if gone {
                1int
            } else {
                0int
            }) + (if terms[offset as int].finite() {
                0int
            } else {
                1int
            })
        }),
{
    let now = frame_terms(terms, offset, width);
    assert(now.len() > 0 && now.last() == terms[offset as int]);
    assert(odd_terms(now) == odd_terms(now.drop_last()) + if now.last().finite() {
        0nat
    } else {
        1nat
    });
    if offset == 0 {
        assert(now.drop_last() =~= Seq::<Float64>::empty());
    } else {
        let before = frame_terms(terms, (offset - 1) as nat, width);
        if offset >= width {
            lemma_odd_first(before);
            assert(before[0] == terms[offset - width]);
            assert(now.drop_last() =~= before.drop_first());
        } else {
            assert(now.drop_last() =~= before);
        }
    }
}

/// The rows that are held over a frame after row `offset`, when the rows in
/// `starts` start over and at all others one row joins and one leaves.
pub open spec fn rolling_holds(starts: Set<int>, offset: nat, width: nat) -> Set<int>
    decreases offset,
{
    let before = if offset == 0 {
        Set::empty()
    } else {
        rolling_holds(starts, (offset - 1) as nat, width)
    };
    if starts.contains(offset as int) {
        Set::new(|row: int| frame_start(offset, width) <= row <= offset)
    } else {
        match leaving(offset, width) {
            Some(row) => before.insert(offset as int).remove(row),
            None => before.insert(offset as int),
        }
    }
}

/// Wherever it starts over, what runs over a frame holds exactly the frame
/// after every row: the row that joins was not held, and the row that leaves
/// was.
pub proof fn lemma_rolling_holds_frame(starts: Set<int>, offset: nat, width: nat)
    requires
        width >= 1,
    ensures
        rolling_holds(starts, offset, width) == frame(offset, width),
        offset > 0 ==> !rolling_holds(starts, (offset - 1) as nat, width).contains(offset as int),
        leaving(offset, width) matches Some(row) ==> rolling_holds(
            starts,
            (offset - 1) as nat,
            width,
        ).contains(row),
    decreases offset,
{
    if offset > 0 {
        lemma_rolling_holds_frame(starts, (offset - 1) as nat, width);
    }
    assert(rolling_holds(starts, offset, width) =~= frame(offset, width));
}

/// The rows that were taken in since the last of `starts`, be they in the
/// frame or not.
pub open spec fn taken_in(starts: Set<int>, offset: nat, width: nat) -> Set<int>
    decreases offset,
{
    if offset == 0 || starts.contains(offset as int) {
        frame(offset, width)
    } else {
        taken_in(starts, (offset - 1) as nat, width).insert(offset as int)
    }
}

/// Where a frame is finite, so is all that was taken in since the last start:
/// no term that has left lingers, if every check that asks for a start is
/// followed.
pub proof fn lemma_frame_forgets(
    terms: Seq<Float64>,
    starts: Set<int>,
    offset: nat,
    width: nat,
)
    requires
        width >= 1,
        offset < terms.len(),
        forall|k: nat|
            k <= offset && #[trigger] spoiled(terms, k, width, Seq::empty()) ==> starts.contains(
                k as int,
            ),
        all_finite(frame_terms(terms, offset, width)),
    ensures
        forall|row: int| #[trigger]
            taken_in(starts, offset, width).contains(row) ==> 0 <= row <= offset
                && terms[row].finite(),
    decreases offset,
{
    let now = frame_terms(terms, offset, width);
    lemma_odd_bound(now);
    assert forall|row: int| #[trigger]
        frame(offset, width).contains(row) implies 0 <= row <= offset && terms[row].finite() by {
        assert(now[row - frame_start(offset, width)] == terms[row]);
    }
    if offset > 0 && !starts.contains(offset as int) {
        assert(!spoiled(terms, offset, width, Seq::empty()));
        lemma_odd_slides(terms, offset, width);
        lemma_odd_bound(frame_terms(terms, (offset - 1) as nat, width));
        lemma_frame_forgets(terms, starts, (offset - 1) as nat, width);
        assert(frame(offset, width).contains(offset as int));
        let before = taken_in(starts, (offset - 1) as nat, width);
        assert(taken_in(starts, offset, width) == before.insert(offset as int));
        assert forall|row: int| #[trigger]
            taken_in(starts, offset, width).contains(row) implies 0 <= row <= offset
            && terms[row].finite() by {
            assert(row == offset || before.contains(row));
        }
    } else {
        assert(taken_in(starts, offset, width) == frame(offset, width));
    }
}

/// One step of running second moments about a shift.
#[derive(Clone, Copy, Debug, PartialEq, Eq, Structural)]
pub struct SpreadStep {
    /// Where to start over: the shift becomes this step's own row, and the
    /// frame from the row named here is accumulated afresh.
    pub rebuild_from: Option<usize>,
    /// Without a fresh start the step's own row joins and this one leaves.
    pub leaves: Option<usize>,
    /// The row whose value is the shift from now on.
    pub anchored: usize,
    /// The number of rows in the frame.
    pub rows: usize,
}

/// Whether the shift is too old, or there is none yet.
pub open spec fn stale(anchored: Option<usize>, offset: nat, width: nat) -> bool {
    match anchored {
        Some(row) => offset - row >= width,
        None => true,
    }
}

/// What running second moments do at row `offset`, when the shift was last
/// taken at `anchored`.
pub fn spread_step(offset: usize, width: u64, anchored: Option<usize>) -> (step: SpreadStep)
    requires
        width >= 1,
        offset < usize::MAX,
        anchored matches Some(row) ==> row <= offset,
    ensures
        stale(anchored, offset as nat, width as nat) ==> step.rebuild_from == Some(
            frame_start(offset as nat, width as nat) as usize,
        ) && step.leaves is None && step.anchored == offset,
        !stale(anchored, offset as nat, width as nat) ==> step.rebuild_from is None && Some(
            step.anchored,
        ) == anchored && match step.leaves {
            Some(row) => leaving(offset as nat, width as nat) == Some(row as int),
            None => leaving(offset as nat, width as nat) is None,
        },
        step.rows == offset + 1 - frame_start(offset as nat, width as nat),
        step.anchored <= offset,
{
    let end: u64 = offset as u64 + 1;
    let start: u64 = if end >= width {
        end - width
    } else {
        0
    };
    let rows: usize = (end - start) as usize;
    let shift: Option<usize> = match anchored {
        Some(row) => {
            if (offset - row) as u64 >= width {
                None
            } else {
                Some(row)
            }
        },
        None => None,
    };
    match shift {
        None => SpreadStep {
            rebuild_from: Some(start as usize),
            leaves: None,
            anchored: offset,
            rows,
        },
        Some(row) => {
            let leaves: Option<usize> = if offset as u64 >= width {
                Some((offset as u64 - width) as usize)
            } else {
                None
            };
            SpreadStep { rebuild_from: None, leaves, anchored: row, rows }
        },
    }
}

/// The row the shift was taken from, after row `offset`, as the steps say,
/// when the rows in `restarts` start over besides.
pub open spec fn anchor_after(restarts: Set<int>, offset: nat, width: nat) -> nat
    decreases offset,
{
    if offset == 0 {
        0
    } else {
        let anchored = anchor_after(restarts, (offset - 1) as nat, width);
        if offset - anchored >= width || restarts.contains(offset as int) {
            offset
        } else {
            anchored
        }
    }
}

/// The shift is the value of a row in the frame.
pub proof fn lemma_shift_in_frame(restarts: Set<int>, offset: nat, width: nat)
    requires
        width >= 1,
    ensures
        frame(offset, width).contains(anchor_after(restarts, offset, width) as int),
    decreases offset,
{
    if offset > 0 {
        lemma_shift_in_frame(restarts, (offset - 1) as nat, width);
    }
}

/// Where nothing else starts over, the shift is taken afresh every `width`
/// rows: at the multiples of the width, and nowhere else.
pub proof fn lemma_shift_cadence(offset: nat, width: nat)
    requires
        width >= 1,
    ensures
        anchor_after(Set::empty(), offset, width) == (offset / width) * width,
    decreases offset,
{
    let w = width as int;
    if offset == 0 {
        vstd::arithmetic::div_mod::lemma_small_mod(0, width);
        vstd::arithmetic::div_mod::lemma_basic_div(0, w);
        assert((0int / w) * w == 0) by (nonlinear_arith)
            requires
                0int / w == 0,
        ;
    } else {
        let before = offset - 1;
        lemma_shift_cadence(before as nat, width);
        let q = before / w;
        let r = before % w;
        vstd::arithmetic::div_mod::lemma_fundamental_div_mod(before, w);
        vstd::arithmetic::mul::lemma_mul_is_commutative(w, q);
        assert(before == q * w + r);
        if r + 1 >= w {
            assert(r == w - 1);
            assert(offset == (q + 1) * w + 0) by (nonlinear_arith)
                requires
                    offset == q * w + r + 1,
                    r == w - 1,
            ;
            vstd::arithmetic::div_mod::lemma_fundamental_div_mod_converse(
                offset as int,
                w,
                q + 1,
                0,
            );
        } else {
            vstd::arithmetic::div_mod::lemma_fundamental_div_mod_converse(
                offset as int,
                w,
                q,
                r + 1,
            );
        }
    }
}

/// A positive distance, or why the argument is none.
pub open spec fn count_spec(distance: Option<i64>) -> Result<nat, Seq<char>> {
    match distance {
        Some(count) => if count < 1 {
            Err("the lag distance must be a positive integer"@)
        } else {
            Ok(count as nat)
        },
        None => Err("the lag distance must be a positive integer"@),
    }
}

/// Reads a lag distance: a positive integer.
pub fn count_argument(distance: Option<i64>) -> (count: Result<u64, &'static str>)
    ensures
        match count {
            Ok(count) => count_spec(distance) == Ok::<nat, Seq<char>>(count as nat),
            Err(message) => count_spec(distance) == Err::<nat, Seq<char>>(message@),
        },
{
    match distance {
        Some(count) => {
            if count < 1 {
                return Err("the lag distance must be a positive integer");
            }
            Ok(count as u64)
        },
        None => Err("the lag distance must be a positive integer"),
    }
}

/// The float zero.
pub open spec fn zero() -> Float64 {
    Float64 { bits: 0 }
}

/// The float one.
pub open spec fn one() -> Float64 {
    Float64 { bits: 0x3FF0_0000_0000_0000 }
}

/// A smoothing factor: above zero and at most one.
pub open spec fn smoothing(alpha: Float64) -> bool {
    zero().below(alpha) && (alpha.below(one()) || alpha.same(one()))
}

/// Reads a smoothing factor: a number in (0, 1].
pub fn alpha_argument(alpha: Option<Float64>) -> (factor: Result<Float64, &'static str>)
    ensures
        match factor {
            Ok(factor) => alpha == Some(factor) && smoothing(factor),
            Err(message) => !(alpha matches Some(factor) && smoothing(factor)) && message@
                == "the EWMA smoothing factor must be in (0, 1]"@,
        },
{
    match alpha {
        Some(factor) => {
            let low = Float64::from_bits(0);
            let high = Float64::from_bits(0x3FF0_0000_0000_0000);
            if low.less_than(factor) && (factor.less_than(high) || factor == high) {
                return Ok(factor);
            }
            Err("the EWMA smoothing factor must be in (0, 1]")
        },
        None => Err("the EWMA smoothing factor must be in (0, 1]"),
    }
}

/// The row a transform refers back to and the row itself, or none where
/// there is no row `back` rows before.
pub open spec fn back_reference(entries: Seq<Entry>, back: nat, i: int) -> Option<
    (Float64, Float64),
> {
    if i < back {
        None
    } else {
        Some((entries[i]->Value_0, entries[i - back]->Value_0))
    }
}

/// The rows a transform reads hold no integer that is no float exactly.
pub open spec fn back_exact(entries: Seq<Entry>, back: nat) -> bool {
    forall|i: int|
        back <= i < entries.len() ==> #[trigger] entries[i] != Entry::Inexact && entries[i - back]
            != Entry::Inexact
}

/// What a transform that looks `back` rows behind works on: per row its own
/// float and the one it refers back to.
pub open spec fn series_spec(entries: Seq<Entry>, back: nat) -> Result<
    Seq<Option<(Float64, Float64)>>,
    Seq<char>,
> {
    if back_exact(entries, back) {
        Ok(Seq::new(entries.len(), |i: int| back_reference(entries, back, i)))
    } else {
        Err("i64 element does not fit f64 exactly"@)
    }
}

/// Lines up each row of a column without nulls with the row `back` before.
fn line_up(source: &Operand<'_>, back: u64) -> (rows: Result<
    Vec<Option<(Float64, Float64)>>,
    &'static str,
>)
    requires
        source.numeric(),
        source@ is Column,
        forall|i: int| 0 <= i < source@->Column_0.len() ==> source@->Column_0[i] != Entry::Null,
    ensures
        listed(rows) == series_spec(source@->Column_0, back as nat),
{
    let ghost entries = source@->Column_0;
    let len: usize = match source.len() {
        Some(len) => len,
        None => 0,
    };
    let mut rows: Vec<Option<(Float64, Float64)>> = Vec::new();
    for offset in 0..len
        invariant
            source.numeric(),
            source@ == OperandModel::Column(entries),
            len == entries.len(),
            forall|i: int| 0 <= i < entries.len() ==> entries[i] != Entry::Null,
            forall|i: int|
                back <= i < offset ==> #[trigger] entries[i] != Entry::Inexact && entries[i - back]
                    != Entry::Inexact,
            rows@ == Seq::new(offset as nat, |i: int| back_reference(entries, back as nat, i)),
    {
        if (offset as u64) < back {
            rows.push(None);
        } else {
            let prior: usize = (offset as u64 - back) as usize;
            match (source.element(offset), source.element(prior)) {
                (Ok(Some(current)), Ok(Some(before))) => {
                    rows.push(Some((current, before)));
                },
                (Err(message), _) => {
                    assert(entries[offset as int] == Entry::Inexact);
                    return Err(message);
                },
                (_, Err(message)) => {
                    assert(entries[offset - back] == Entry::Inexact);
                    assert(!back_exact(entries, back as nat)) by {
                        assert(entries[offset as int] == entries[offset as int]);
                    }
                    return Err(message);
                },
                (Ok(None), _) => {
                    assert(entries[offset as int] == Entry::Null);
                    return Ok(rows);
                },
                (_, Ok(None)) => {
                    assert(entries[prior as int] == Entry::Null);
                    return Ok(rows);
                },
            }
        }
    }
    Ok(rows)
}

/// What `lag` gives: the column `distance` rows later, null before that.
pub open spec fn lag_spec(x: Argument<'_>, distance: Option<i64>) -> Result<
    Seq<Option<Float64>>,
    Seq<char>,
> {
    match dense_spec(x) {
        Err(message) => Err(message),
        Ok(entries) => match count_spec(distance) {
            Err(message) => Err(message),
            Ok(back) => match series_spec(entries, back) {
                Err(message) => Err(message),
                Ok(rows) => Ok(
                    Seq::new(
                        entries.len(),
                        |i: int|
                            if i < back {
                                None
                            } else {
                                Some(entries[i - back]->Value_0)
                            },
                    ),
                ),
            },
        },
    }
}

/// The column shifted down by `distance` rows; the rows before that have
/// nothing to refer to and are null.
pub fn lag(x: &Argument<'_>, distance: Option<i64>) -> (shifted: Result<Vector, &'static str>)
    requires
        x.aligned(),
    ensures
        composed(shifted) == lag_spec(*x, distance),
{
    let source: Operand<'_> = match dense_operand(x) {
        Ok(source) => source,
        Err(message) => {
            return Err(message);
        },
    };
    let back: u64 = match count_argument(distance) {
        Ok(back) => back,
        Err(message) => {
            return Err(message);
        },
    };
    let rows = match line_up(&source, back) {
        Ok(rows) => rows,
        Err(message) => {
            return Err(message);
        },
    };
    let ghost entries = source@->Column_0;
    let mut elements: Vec<Option<Float64>> = Vec::new();
    for offset in 0..rows.len()
        invariant
            rows@ == Seq::new(
                entries.len(),
                |i: int| back_reference(entries, back as nat, i),
            ),
            elements@ == Seq::new(
                offset as nat,
                |i: int|
                    if i < back {
                        None
                    } else {
                        Some(entries[i - back]->Value_0)
                    },
            ),
    {
        elements.push(
            match rows[offset] {
                Some(row) => Some(row.1),
                None => None,
            },
        );
    }
    Ok(Vector::new(elements))
}

/// What the transforms that compare neighbours work on.
pub open spec fn steps_spec(x: Argument<'_>) -> Result<Seq<Option<(Float64, Float64)>>, Seq<char>> {
    match dense_spec(x) {
        Err(message) => Err(message),
        Ok(entries) => series_spec(entries, 1),
    }
}

/// Lines up the operands of `diff` and `log_returns`: per row its own float
/// and the one before it; none for the first row, which comes out null.
pub fn series_steps(x: &Argument<'_>) -> (rows: Result<
    Vec<Option<(Float64, Float64)>>,
    &'static str,
>)
    requires
        x.aligned(),
    ensures
        listed(rows) == steps_spec(*x),
{
    match dense_operand(x) {
        Ok(source) => line_up(&source, 1),
        Err(message) => Err(message),
    }
}

/// What exponential smoothing runs on: the floats and the factor.
pub open spec fn ewma_spec(x: Argument<'_>, alpha: Option<Float64>) -> Result<
    (Seq<Float64>, Float64),
    Seq<char>,
> {
    match dense_spec(x) {
        Err(message) => Err(message),
        Ok(entries) => match alpha {
            Some(factor) if smoothing(factor) => match dense_values(entries) {
                Err(message) => Err(message),
                Ok(values) => Ok((values, factor)),
            },
            _ => Err("the EWMA smoothing factor must be in (0, 1]"@),
        },
    }
}

/// Reads the arguments of exponential smoothing. Every row is defined, from
/// the first on.
pub fn ewma_column(x: &Argument<'_>, alpha: Option<Float64>) -> (read: Result<
    (Vec<Float64>, Float64),
    &'static str,
>)
    requires
        x.aligned(),
    ensures
        match read {
            Ok((values, factor)) => ewma_spec(*x, alpha) == Ok::<
                (Seq<Float64>, Float64),
                Seq<char>,
            >((values@, factor)),
            Err(message) => ewma_spec(*x, alpha) == Err::<(Seq<Float64>, Float64), Seq<char>>(
                message@,
            ),
        },
{
    let source: Operand<'_> = match dense_operand(x) {
        Ok(source) => source,
        Err(message) => {
            return Err(message);
        },
    };
    let factor: Float64 = match alpha_argument(alpha) {
        Ok(factor) => factor,
        Err(message) => {
            return Err(message);
        },
    };
    match read_dense(&source) {
        Ok(values) => Ok((values, factor)),
        Err(message) => Err(message),
    }
}

/// A column a script returned.
#[derive(Debug)]
pub enum ColumnResult {
    /// The script returned nothing; what it wrote to the output stands.
    Nothing,
    /// One element per row; an absent one is null.
    Elements(Vec<Option<Float64>>),
    /// A column without nulls.
    Dense(Vec<Float64>),
}

impl View for ColumnResult {
    type V = Option<Seq<Option<Float64>>>;

    open spec fn view(&self) -> Option<Seq<Option<Float64>>> {
        match self {
            ColumnResult::Nothing => None,
            ColumnResult::Elements(elements) => Some(elements@),
            ColumnResult::Dense(values) => Some(
                values@.map_values(|value: Float64| Some(value)),
            ),
        }
    }
}

/// The element an entry stands for in a returned column.
pub open spec fn element_of(entry: Entry) -> Option<Float64> {
    match entry {
        Entry::Value(value) => Some(value),
        _ => None,
    }
}

/// The column a returned value stands for, or why it stands for none.
pub open spec fn returned_spec(value: Argument<'_>) -> Result<
    Option<Seq<Option<Float64>>>,
    Seq<char>,
> {
    match value {
        Argument::Nil => Ok(None),
        Argument::Vector(vector) => Ok(Some(vector@)),
        Argument::View { view, born, generation } => if born != generation {
            Err("result: view used outside its call"@)
        } else if view is Key {
            Err("result: a key view is not a numeric column"@)
        } else if exact_rows(OperandModel::Column(view_entries(view)), view.rows()) {
            Ok(Some(view_entries(view).map_values(|entry: Entry| element_of(entry))))
        } else {
            Err("result: i64 element does not fit f64 exactly"@)
        },
        _ => Err("result: a column kernel returns a vector, a view, or nothing (writing out[i])"@),
    }
}

/// Copies a vector's elements; in bulk if none is null.
fn read_vector(vector: &Vector) -> (column: ColumnResult)
    ensures
        column@ == Some(vector@),
        (column is Dense) == (forall|i: int| 0 <= i < vector@.len() ==> vector@[i] is Some),
{
    let len: usize = vector.len();
    if vector.is_dense() {
        let mut values: Vec<Float64> = Vec::new();
        for offset in 0..len
            invariant
                len == vector@.len(),
                forall|i: int| 0 <= i < vector@.len() ==> vector@[i] is Some,
                values@.len() == offset,
                forall|i: int| 0 <= i < offset ==> #[trigger] vector@[i] == Some(values@[i]),
        {
            match vector.get(offset) {
                Some(value) => {
                    values.push(value);
                },
                None => {
                    assert(vector@[offset as int] is None);
                },
            }
        }
        assert(values@.map_values(|value: Float64| Some(value)) =~= vector@);
        return ColumnResult::Dense(values);
    }
    let mut elements: Vec<Option<Float64>> = Vec::new();
    for offset in 0..len
        invariant
            len == vector@.len(),
            elements@ == vector@.take(offset as int),
    {
        elements.push(vector.get(offset));
        assert(vector@.take(offset + 1) =~= vector@.take(offset as int).push(
            vector@[offset as int],
        ));
    }
    assert(vector@.take(len as int) =~= vector@);
    ColumnResult::Elements(elements)
}

/// Reads the column a script returned: a vector, a numeric view, or nothing.
pub fn read_column_result(value: &Argument<'_>) -> (column: Result<ColumnResult, &'static str>)
    requires
        value.aligned(),
    ensures
        match column {
            Ok(column) => returned_spec(*value) == Ok::<
                Option<Seq<Option<Float64>>>,
                Seq<char>,
            >(column@),
            Err(message) => returned_spec(*value) == Err::<
                Option<Seq<Option<Float64>>>,
                Seq<char>,
            >(message@),
        },
{
    match value {
        Argument::Nil => Ok(ColumnResult::Nothing),
        Argument::Vector(vector) => Ok(read_vector(vector)),
        Argument::View { view, born, generation } => {
            if *born != *generation {
                return Err("result: view used outside its call");
            }
            if view.is_key() {
                return Err("result: a key view is not a numeric column");
            }
            match view {
                ColumnView::F64 { floats, .. } => {
                    if view.is_dense() {
                        let values = slice_to_vec(floats);
                        proof {
                            let entries = view_entries(*view);
                            assert forall|i: int| 0 <= i < entries.len() implies entries[i]
                                == Entry::Value(values@[i]) by {
                                assert(view.valid(i));
                            }
                            assert(values@.map_values(|value: Float64| Some(value))
                                =~= entries.map_values(|entry: Entry| element_of(entry)));
                        }
                        return Ok(ColumnResult::Dense(values));
                    }
                },
                _ => {},
            }
            let len: usize = view.len();
            let mut elements: Vec<Option<Float64>> = Vec::new();
            for offset in 0..len
                invariant
                    *value == (Argument::View { view: *view, born: *born, generation: *generation }),
                    *born == *generation,
                    view.aligned(),
                    !(*view is Key),
                    len == view.rows(),
                    elements@.len() == offset,
                    forall|i: int|
                        0 <= i < offset ==> elements@[i] == element_of(
                            #[trigger] view_entries(*view)[i],
                        ) && view_entries(*view)[i] != Entry::Inexact,
            {
                let ghost entries = view_entries(*view);
                if !view.is_valid(offset) {
                    elements.push(None);
                    assert(entries[offset as int] == Entry::Null);
                } else {
                    match view {
                        ColumnView::F64 { floats, .. } => {
                            elements.push(Some(floats[offset]));
                            assert(entries[offset as int] == Entry::Value(floats@[offset as int]));
                        },
                        ColumnView::I64 { integers, .. } => {
                            match int_as_f64_exact(integers[offset]) {
                                Some(float) => {
                                    elements.push(Some(float));
                                    assert(entries[offset as int] == Entry::Value(float));
                                },
                                None => {
                                    assert(entry_at(OperandModel::Column(entries), offset as int)
                                        == Entry::Inexact);
                                    return Err("result: i64 element does not fit f64 exactly");
                                },
                            }
                        },
                        ColumnView::Key { .. } => {},
                    }
                }
            }
            proof {
                let entries = view_entries(*view);
                assert(exact_rows(OperandModel::Column(entries), view.rows()));
                assert(elements@ =~= entries.map_values(|entry: Entry| element_of(entry)));
            }
            Ok(ColumnResult::Elements(elements))
        },
        _ => Err("result: a column kernel returns a vector, a view, or nothing (writing out[i])"),
    }
}

/// Copies floats out of a slice.
fn slice_to_vec(floats: &[Float64]) -> (values: Vec<Float64>)
    ensures
        values@ == floats@,
{
    let mut values: Vec<Float64> = Vec::new();
    for i in 0..floats.len()
        invariant
            values@ == floats@.take(i as int),
    {
        values.push(floats[i]);
        assert(floats@.take(i + 1) =~= floats@.take(i as int).push(floats@[i as int]));
    }
    assert(floats@.take(floats@.len() as int) =~= floats@);
    values
}

/// The number of rows of a column an argument holds; key views do not count.
pub open spec fn sized(argument: Argument<'_>) -> Option<nat> {
    match argument {
        Argument::Vector(vector) => Some(vector@.len()),
        Argument::View { view, .. } => if view is Key {
            None
        } else {
            Some(view.rows())
        },
        _ => None,
    }
}

/// The number of rows of a column an argument holds.
fn column_length(argument: &Argument<'_>) -> (len: Option<usize>)
    ensures
        match len {
            Some(n) => sized(*argument) == Some(n as nat),
            None => sized(*argument) is None,
        },
{
    match argument {
        Argument::Vector(vector) => Some(vector.len()),
        Argument::View { view, .. } => {
            if view.is_key() {
                None
            } else {
                Some(view.len())
            }
        },
        _ => None,
    }
}

/// Whether an argument is a view that was bound in another call.
pub open spec fn outlived(argument: Argument<'_>) -> bool {
    argument matches Argument::View { born, generation, .. } && born != generation
}

/// Whether an argument is a view that was bound in another call.
fn has_outlived(argument: &Argument<'_>) -> (is: bool)
    ensures
        is == outlived(*argument),
{
    match argument {
        Argument::View { born, generation, .. } => *born != *generation,
        _ => false,
    }
}

/// What arithmetic with the null sentinel gives: a column of nulls as long
/// as the first column among the operands, or none if there is no column and
/// the result is the sentinel itself. A view used outside its call is
/// refused.
pub open spec fn null_spec(lhs: Argument<'_>, rhs: Argument<'_>) -> Result<
    Option<Seq<Option<Float64>>>,
    Seq<char>,
> {
    if outlived(lhs) || outlived(rhs) {
        Err("view used outside its call"@)
    } else {
        match (sized(lhs), sized(rhs)) {
            (Some(n), _) => Ok(Some(Seq::new(n, |i: int| None::<Float64>))),
            (None, Some(n)) => Ok(Some(Seq::new(n, |i: int| None::<Float64>))),
            _ => Ok(None),
        }
    }
}

/// What arithmetic with the null sentinel gives: a column of nulls, or none
/// for the sentinel itself.
pub fn null_arithmetic(lhs: &Argument<'_>, rhs: &Argument<'_>) -> (result: Result<
    Option<Vector>,
    &'static str,
>)
    ensures
        match result {
            Ok(Some(vector)) => null_spec(*lhs, *rhs) == Ok::<
                Option<Seq<Option<Float64>>>,
                Seq<char>,
            >(Some(vector@)),
            Ok(None) => null_spec(*lhs, *rhs) == Ok::<Option<Seq<Option<Float64>>>, Seq<char>>(
                None,
            ),
            Err(message) => null_spec(*lhs, *rhs) == Err::<
                Option<Seq<Option<Float64>>>,
                Seq<char>,
            >(message@),
        },
{
    if has_outlived(lhs) || has_outlived(rhs) {
        return Err("view used outside its call");
    }
    match column_length(lhs) {
        Some(len) => {
            return Ok(Some(Vector::nulls(len)));
        },
        None => {},
    }
    match column_length(rhs) {
        Some(len) => Ok(Some(Vector::nulls(len))),
        None => Ok(None),
    }
}

/// A null on either side makes the row null, and only that does.
pub proof fn lemma_null_propagates(lhs: Argument<'_>, rhs: Argument<'_>, i: int)
    requires
        binary_spec(lhs, rhs) is Ok,
        0 <= i < binary_spec(lhs, rhs)->Ok_0.len(),
    ensures
        binary_spec(lhs, rhs)->Ok_0[i] is None <==> (entry_at(operand_spec(lhs)->Ok_0, i)
            == Entry::Null || entry_at(operand_spec(rhs)->Ok_0, i) == Entry::Null),
{
}

/// The null sentinel and a column agree on either side, and whichever side's
/// arithmetic is asked: every row of the result is null, as many as the
/// column has.
pub proof fn lemma_null_operand_agrees(column: Argument<'_>)
    requires
        operand_spec(column) matches Ok(OperandModel::Column(entries)) && exact_rows(
            OperandModel::Column(entries),
            entries.len(),
        ),
    ensures
        sized(column) is Some,
        ({
            let empty = Seq::new(sized(column)->0, |i: int| None::<Float64>);
            null_spec(column, Argument::Null) == Ok::<
                Option<Seq<Option<Float64>>>,
                Seq<char>,
            >(Some(empty)) && null_spec(Argument::Null, column) == Ok::<
                Option<Seq<Option<Float64>>>,
                Seq<char>,
            >(Some(empty))
        }),
        ({
            let nulls = Seq::new(sized(column)->0, |i: int| None::<(Float64, Float64)>);
            binary_spec(column, Argument::Null) == Ok::<
                Seq<Option<(Float64, Float64)>>,
                Seq<char>,
            >(nulls) && binary_spec(Argument::Null, column) == Ok::<
                Seq<Option<(Float64, Float64)>>,
                Seq<char>,
            >(nulls)
        }),
{
    let entries = operand_spec(column)->Ok_0->Column_0;
    let nulls = Seq::new(sized(column)->0, |i: int| None::<(Float64, Float64)>);
    let a = OperandModel::Column(entries);
    assert(exact_rows(OperandModel::Null, entries.len()));
    assert(Seq::new(entries.len(), |i: int| meeting(a, OperandModel::Null, i)) =~= nulls);
    assert(Seq::new(entries.len(), |i: int| meeting(OperandModel::Null, a, i)) =~= nulls);
}

/// Swapping the operands swaps what meets in every row, and nothing else.
pub proof fn lemma_operands_swap(lhs: Argument<'_>, rhs: Argument<'_>)
    requires
        binary_spec(lhs, rhs) is Ok,
    ensures
        binary_spec(rhs, lhs) == Ok::<Seq<Option<(Float64, Float64)>>, Seq<char>>(
            binary_spec(lhs, rhs)->Ok_0.map_values(
                |row: Option<(Float64, Float64)>|
                    match row {
                        Some(pair) => Some((pair.1, pair.0)),
                        None => None,
                    },
            ),
        ),
{
    let a = operand_spec(lhs)->Ok_0;
    let b = operand_spec(rhs)->Ok_0;
    let n = length_spec(a, b)->Ok_0;
    assert(Seq::new(n, |i: int| meeting(b, a, i)) =~= binary_spec(lhs, rhs)->Ok_0.map_values(
        |row: Option<(Float64, Float64)>|
            match row {
                Some(pair) => Some((pair.1, pair.0)),
                None => None,
            },
    ));
}

/// A view is good in its own call only, while a vector always is.
pub proof fn lemma_vectors_outlive_views(
    vector: &Vector,
    view: ColumnView<'_>,
    born: u64,
    generation: u64,
)
    requires
        born != generation,
    ensures
        operand_spec(Argument::Vector(vector)) is Ok,
        operand_spec(Argument::View { view, born, generation }) == Err::<OperandModel, Seq<char>>(
            "view used outside its call"@,
        ),
        returned_spec(Argument::View { view, born, generation }) == Err::<
            Option<Seq<Option<Float64>>>,
            Seq<char>,
        >("result: view used outside its call"@),
        null_spec(Argument::Null, Argument::View { view, born, generation }) == Err::<
            Option<Seq<Option<Float64>>>,
            Seq<char>,
        >("view used outside its call"@),
{
}

/// Negating twice gives the column back.
pub proof fn lemma_negate_involutive(vector: &Vector, negated: &Vector)
    requires
        negate_spec(Argument::Vector(vector)) == Ok::<Seq<Option<Float64>>, Seq<char>>(negated@),
    ensures
        negate_spec(Argument::Vector(negated)) == Ok::<Seq<Option<Float64>>, Seq<char>>(vector@),
{
    let entries = vector_entries(vector@);
    let back = vector_entries(negated@);
    assert forall|i: int| 0 <= i < vector@.len() implies negated@[i] == (match vector@[i] {
        Some(value) => Some(value.negated()),
        None => None,
    }) by {
        assert(entries[i] == entry_of_element(vector@[i]));
    }
    assert forall|i: int| 0 <= i < back.len() implies entry_at(OperandModel::Column(back), i)
        != Entry::Inexact by {}
    let twice = negate_spec(Argument::Vector(negated))->Ok_0;
    assert forall|i: int| 0 <= i < vector@.len() implies twice[i] == vector@[i] by {
        assert(back[i] == entry_of_element(negated@[i]));
    }
    assert(twice =~= vector@);
}

} // verus!
