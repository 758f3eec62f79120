//! What an embedded interpreter keeps between calls, and how a call ends.
//!
//! A chunk is compiled once and run many times, on the interpreter that
//! compiled it only. Views are good for one call: every call, however it
//! ends, moves the generation on. A script's failure comes back as a value,
//! and the interpreter stays usable.
use crate::float64::{exact_int, float_as_i64_exact, Float64};
use crate::lua::values::{
    check_view, filled_cell, read_result, result_spec, validity_failure, Coerced, ColumnView,
    LuaValue, OutputColumn, ReplyModel, ReturnType, ScalarValue,
};
use crate::lua::vector::{read_column_result, returned_spec, Argument, ColumnResult};
use crate::text::{decimal, lemma_decimal_unique, lossy, lossy_text, push_decimal, push_size};
use vstd::prelude::*;

verus! {

/// A compiled kernel: the key it is kept under, and the interpreter it
/// belongs to.
#[derive(Debug)]
pub struct Chunk {
    key: String,
    state_id: u64,
}

impl Chunk {
    /// The key's text.
    pub closed spec fn name(&self) -> Seq<char> {
        self.key@
    }

    /// The interpreter's identity.
    pub closed spec fn owner(&self) -> u64 {
        self.state_id
    }

    /// The registry key the compiled function is kept under.
    pub fn key(&self) -> (key: &str)
        ensures
            key@ == self.name(),
    {
        self.key.as_str()
    }
}

/// The registry key of the `n`th chunk.
pub open spec fn chunk_key(n: nat) -> Seq<char> {
    "tallydb.chunk."@ + decimal(n)
}

/// One interpreter's bookkeeping.
#[derive(Debug)]
pub struct LuaState {
    id: u64,
    next_chunk: u64,
    generation: u64,
    driving: bool,
}

/// What a run of a chunk came to.
pub enum Ran<T> {
    /// It returned this value.
    Returned(T),
    /// It failed; the error object's bytes, if it is a string.
    Failed(Option<Vec<u8>>),
}

/// The text of a failure: the stage, and what the interpreter said.
pub open spec fn failure_text(stage: Seq<char>, message: Option<Seq<u8>>) -> Seq<char> {
    match message {
        Some(bytes) => stage + ": "@ + lossy_text(bytes),
        None => stage + ": error object is not a string"@,
    }
}

/// The text of a failure at the given stage. The message is absent when the
/// error object is not a string.
pub fn error_text(stage: &str, message: &Option<Vec<u8>>) -> (text: String)
    ensures
        text@ == failure_text(
            stage@,
            match message {
                Some(bytes) => Some(bytes@),
                None => None,
            },
        ),
{
    let mut text = String::from_str(stage);
    match message {
        Some(bytes) => {
            let said: String = lossy(bytes.as_slice());
            text.append(": ");
            text.append(said.as_str());
        },
        None => {
            text.append(": error object is not a string");
        },
    }
    text
}

/// The first of the first `n` inputs whose validity does not go with its
/// values.
pub open spec fn first_misfit(inputs: Seq<(String, ColumnView<'_>)>, n: nat) -> Option<Seq<char>>
    decreases n,
{
    if n == 0 {
        None
    } else {
        match first_misfit(inputs, (n - 1) as nat) {
            Some(text) => Some(text),
            None => {
                let (name, view) = inputs[n - 1];
                validity_failure(
                    name@,
                    match view.mask() {
                        Some(bits) => Some(bits.len()),
                        None => None,
                    },
                    view.rows(),
                )
            },
        }
    }
}

/// A misfit among the first inputs stays the first one.
proof fn lemma_misfit_stays(inputs: Seq<(String, ColumnView<'_>)>, n: nat, m: nat)
    requires
        n <= m,
        first_misfit(inputs, n) is Some,
    ensures
        first_misfit(inputs, m) == first_misfit(inputs, n),
    decreases m,
{
    if n < m {
        lemma_misfit_stays(inputs, n, (m - 1) as nat);
    }
}

/// Checks the inputs of a call before they are bound. Names come quoted.
pub fn bind_inputs(inputs: &[(String, ColumnView<'_>)]) -> (bound: Result<(), String>)
    ensures
        match bound {
            Ok(()) => first_misfit(inputs@, inputs@.len()) is None && (forall|i: int|
                0 <= i < inputs@.len() ==> (#[trigger] inputs@[i]).1.aligned()),
            Err(text) => first_misfit(inputs@, inputs@.len()) == Some(text@),
        },
{
    for i in 0..inputs.len()
        invariant
            first_misfit(inputs@, i as nat) is None,
            forall|j: int| 0 <= j < i ==> (#[trigger] inputs@[j]).1.aligned(),
    {
        match check_view(inputs[i].0.as_str(), &inputs[i].1) {
            Ok(()) => {},
            Err(text) => {
                proof {
                    assert(first_misfit(inputs@, (i + 1) as nat) == Some(text@));
                    lemma_misfit_stays(inputs@, (i + 1) as nat, inputs@.len());
                }
                return Err(text);
            },
        }
    }
    Ok(())
}

impl LuaState {
    /// The identity stamped into every chunk.
    pub closed spec fn identity(&self) -> u64 {
        self.id
    }

    /// The number of chunks compiled so far.
    pub closed spec fn compiled(&self) -> nat {
        self.next_chunk as nat
    }

    /// The generation views are bound in.
    pub closed spec fn era(&self) -> u64 {
        self.generation
    }

    /// Whether a driving call is going on.
    pub closed spec fn is_driving(&self) -> bool {
        self.driving
    }

    /// The bookkeeping of a new interpreter, which no other has the identity
    /// of.
    pub fn new(id: u64) -> (state: LuaState)
        ensures
            state.identity() == id,
            state.compiled() == 0,
            state.era() == 0,
            !state.is_driving(),
    {
        LuaState { id, next_chunk: 0, generation: 0, driving: false }
    }

    /// The generation views bound now belong to.
    pub fn generation(&self) -> (generation: u64)
        ensures
            generation == self.era(),
    {
        self.generation
    }

    /// Whether `query` and `append` are allowed.
    pub fn driving(&self) -> (driving: bool)
        ensures
            driving == self.is_driving(),
    {
        self.driving
    }

    /// Files a chunk that compiled, under a key no other chunk of this
    /// interpreter has; one that did not is an error.
    pub fn compile(&mut self, loaded: Ran<()>) -> (chunk: Result<Chunk, String>)
        requires
            old(self).compiled() < u64::MAX,
        ensures
            final(self).identity() == old(self).identity(),
            final(self).era() == old(self).era(),
            final(self).is_driving() == old(self).is_driving(),
            match loaded {
                Ran::Returned(_) => {
                    &&& chunk matches Ok(chunk)
                    &&& chunk.owner() == old(self).identity()
                    &&& chunk.name() == chunk_key(old(self).compiled())
                    &&& final(self).compiled() == old(self).compiled() + 1
                },
                Ran::Failed(message) => {
                    &&& chunk matches Err(text)
                    &&& text@ == failure_text(
                        "load"@,
                        match message {
                            Some(bytes) => Some(bytes@),
                            None => None,
                        },
                    )
                    &&& final(self).compiled() == old(self).compiled()
                },
            },
    {
        match loaded {
            Ran::Failed(message) => Err(error_text("load", &message)),
            Ran::Returned(_) => {
                let mut key = String::from_str("tallydb.chunk.");
                push_decimal(&mut key, self.next_chunk);
                self.next_chunk = self.next_chunk + 1;
                Ok(Chunk { key, state_id: self.id })
            },
        }
    }

    /// Checks that a chunk may run here: only on the interpreter that
    /// compiled it.
    pub fn check_chunk(&self, chunk: &Chunk) -> (checked: Result<(), String>)
        ensures
            match checked {
                Ok(()) => chunk.owner() == self.identity(),
                Err(text) => chunk.owner() != self.identity() && text@
                    == "chunk belongs to a different interpreter"@,
            },
    {
        if chunk.state_id != self.id {
            return Err(String::from_str("chunk belongs to a different interpreter"));
        }
        Ok(())
    }

    /// Ends a call: every view bound or made during it is good no longer.
    fn end_call(&mut self)
        ensures
            final(self).identity() == old(self).identity(),
            final(self).compiled() == old(self).compiled(),
            final(self).era() == next_era(old(self).era()),
            !final(self).is_driving(),
    {
        self.generation = if self.generation == u64::MAX {
            0
        } else {
            self.generation + 1
        };
        self.driving = false;
    }

    /// Starts a driving call: `query` and `append` are allowed until it ends.
    pub fn begin_driving(&mut self)
        ensures
            final(self).identity() == old(self).identity(),
            final(self).compiled() == old(self).compiled(),
            final(self).era() == old(self).era(),
            final(self).is_driving(),
    {
        self.driving = true;
    }

    /// Ends a driving call: its failure comes back as text, and the views of
    /// its results are good no longer.
    pub fn run_driver(&mut self, ran: Result<Ran<()>, String>) -> (done: Result<(), String>)
        ensures
            final(self).identity() == old(self).identity(),
            final(self).compiled() == old(self).compiled(),
            final(self).era() == next_era(old(self).era()),
            !final(self).is_driving(),
            match ran {
                Err(text) => done == Err::<(), String>(text),
                Ok(Ran::Failed(message)) => done matches Err(text) && text@ == failure_text(
                    "run"@,
                    match message {
                        Some(bytes) => Some(bytes@),
                        None => None,
                    },
                ),
                Ok(Ran::Returned(_)) => done is Ok,
            },
    {
        self.end_call();
        match ran {
            Err(text) => Err(text),
            Ok(Ran::Failed(message)) => Err(error_text("run", &message)),
            Ok(Ran::Returned(_)) => Ok(()),
        }
    }

    /// Ends a call that reduces columns to one value, and reads the value
    /// under its declared type. The run is an error's text where the call was
    /// refused before the script started.
    pub fn eval_scalar(
        &mut self,
        ran: Result<Ran<LuaValue>, String>,
        declared: ReturnType,
    ) -> (result: Result<ScalarValue, String>)
        ensures
            final(self).identity() == old(self).identity(),
            final(self).compiled() == old(self).compiled(),
            final(self).era() == next_era(old(self).era()),
            !final(self).is_driving(),
            scalar_model(result) == match ran {
                Err(text) => Err(text@),
                Ok(Ran::Failed(message)) => Err(
                    failure_text(
                        "run"@,
                        match message {
                            Some(bytes) => Some(bytes@),
                            None => None,
                        },
                    ),
                ),
                Ok(Ran::Returned(value)) => result_spec(value, declared),
            },
    {
        self.end_call();
        match ran {
            Err(text) => Err(text),
            Ok(Ran::Failed(message)) => Err(error_text("run", &message)),
            Ok(Ran::Returned(value)) => read_result(&value, declared),
        }
    }

    /// Ends a call that fills an output column: a column the script returned
    /// replaces the output, and without one its writes stand.
    pub fn eval_column(
        &mut self,
        ran: Result<Ran<Argument<'_>>, String>,
        output: &mut OutputColumn,
    ) -> (result: Result<(), String>)
        requires
            ran matches Ok(Ran::Returned(value)) ==> value.aligned() && old(output).aligned(),
        ensures
            final(self).identity() == old(self).identity(),
            final(self).compiled() == old(self).compiled(),
            final(self).era() == next_era(old(self).era()),
            !final(self).is_driving(),
            match ran {
                Err(text) => result == Err::<(), String>(text) && *final(output) == *old(output),
                Ok(Ran::Failed(message)) => result matches Err(text) && text@ == failure_text(
                    "run"@,
                    match message {
                        Some(bytes) => Some(bytes@),
                        None => None,
                    },
                ) && *final(output) == *old(output),
                Ok(Ran::Returned(value)) => match returned_spec(value) {
                    Err(message) => result matches Err(text) && text@ == message && *final(output)
                        == *old(output),
                    Ok(column) => {
                        &&& final(output).aligned()
                        &&& wrote(column, *old(output), *final(output), result)
                    },
                },
            },
    {
        self.end_call();
        match ran {
            Err(text) => Err(text),
            Ok(Ran::Failed(message)) => Err(error_text("run", &message)),
            Ok(Ran::Returned(value)) => match read_column_result(&value) {
                Err(message) => Err(String::from_str(message)),
                Ok(column) => write_column_result(column, output),
            },
        }
    }
}

/// The generation after a call.
pub open spec fn next_era(era: u64) -> u64 {
    if era == u64::MAX {
        0
    } else {
        (era + 1) as u64
    }
}

/// The generation after `calls` calls.
pub open spec fn era_after(era: u64, calls: nat) -> u64
    decreases calls,
{
    if calls == 0 {
        era
    } else {
        next_era(era_after(era, (calls - 1) as nat))
    }
}

/// A view bound in one call is refused in each of the calls after it, until
/// the generations have come round.
pub proof fn lemma_views_poison(born: u64, calls: nat)
    requires
        0 < calls <= u64::MAX,
    ensures
        era_after(born, calls) != born,
{
    lemma_era_counts(born, calls);
}

/// Generations count up, and wrap.
proof fn lemma_era_counts(era: u64, calls: nat)
    requires
        calls <= u64::MAX,
    ensures
        era_after(era, calls) == if era + calls <= u64::MAX {
            era + calls
        } else {
            era + calls - 0x1_0000_0000_0000_0000
        },
    decreases calls,
{
    if calls > 0 {
        lemma_era_counts(era, (calls - 1) as nat);
    }
}

/// No two chunks of an interpreter are kept under the same key.
pub proof fn lemma_chunk_keys_distinct(n: nat, m: nat)
    requires
        chunk_key(n) == chunk_key(m),
    ensures
        n == m,
{
    let prefix = "tallydb.chunk."@;
    assert(chunk_key(n).skip(prefix.len() as int) =~= decimal(n));
    assert(chunk_key(m).skip(prefix.len() as int) =~= decimal(m));
    lemma_decimal_unique(n, m);
}

/// A scalar result or its error's text, as a model.
pub open spec fn scalar_model(result: Result<ScalarValue, String>) -> Result<
    ReplyModel,
    Seq<char>,
> {
    match result {
        Ok(ScalarValue::F64(value)) => Ok(ReplyModel::Number(value)),
        Ok(ScalarValue::I64(value)) => Ok(ReplyModel::Integer(value)),
        Ok(ScalarValue::Null) => Ok(ReplyModel::Null),
        Err(text) => Err(text@),
    }
}

/// What a slot holds when it is given an element of a returned column; none
/// where the element does not fit the slot's type exactly.
pub open spec fn returned_cell(slot: ReturnType, element: Option<Float64>) -> Option<ReplyModel> {
    match element {
        None => Some(ReplyModel::Null),
        Some(value) => match slot {
            ReturnType::F64 => Some(ReplyModel::Number(value)),
            ReturnType::I64 => match exact_int(value) {
                Some(integer) => Some(ReplyModel::Integer(integer)),
                None => None,
            },
            ReturnType::Key => None,
        },
    }
}

/// The first row, from `from` on, whose element does not fit; the number of
/// rows if all fit.
pub open spec fn first_unfit(slot: ReturnType, elements: Seq<Option<Float64>>, from: nat) -> nat
    decreases elements.len() - from,
{
    if from >= elements.len() {
        elements.len()
    } else if returned_cell(slot, elements[from as int]) is None {
        from
    } else {
        first_unfit(slot, elements, from + 1)
    }
}

/// The first `n` slots of an output were given the elements of a column: a
/// null marks its slot null and leaves the value, all else fills it. Nothing
/// else changed.
pub open spec fn replaced(
    elements: Seq<Option<Float64>>,
    n: nat,
    before: OutputColumn,
    after: OutputColumn,
) -> bool {
    &&& after.slot() == before.slot()
    &&& after.words() == before.words()
    &&& after.bits() == Seq::new(
        before.rows(),
        |i: int|
            if i < n {
                elements[i] is Some
            } else {
                before.bits()[i]
            },
    )
    &&& after.stored() == Seq::new(
        before.rows(),
        |i: int|
            if i < n && elements[i] is Some {
                returned_cell(before.slot(), elements[i])->0
            } else {
                before.stored()[i]
            },
    )
    &&& after.cells() == Seq::new(
        before.rows(),
        |i: int|
            if i < n {
                returned_cell(before.slot(), elements[i])->0
            } else {
                before.cells()[i]
            },
    )
}

/// How a returned column changes an output: not at all where there is none,
/// where the output takes keys, or where the lengths differ; else row by row
/// up to the first element that does not fit.
pub open spec fn wrote(
    column: Option<Seq<Option<Float64>>>,
    before: OutputColumn,
    after: OutputColumn,
    result: Result<(), String>,
) -> bool {
    match column {
        None => result is Ok && after.same(before),
        Some(elements) => if before.slot() == ReturnType::Key {
            result matches Err(text) && text@ == "result: a returned column cannot fill a key output"@
                && after.same(before)
        } else if elements.len() != before.rows() {
            result matches Err(text) && text@ == "result: returned column has "@ + decimal(
                elements.len(),
            ) + " elements for "@ + decimal(before.rows()) + " output rows"@ && after.same(before)
        } else {
            let unfit = first_unfit(before.slot(), elements, 0);
            &&& replaced(elements, unfit, before, after)
            &&& match result {
                Ok(()) => unfit == elements.len(),
                Err(text) => unfit < elements.len() && text@
                    == "result: float element does not fit i64 exactly"@,
            }
        },
    }
}

/// A column that was returned without nulls, element by element.
fn spread(values: Vec<Float64>) -> (elements: Vec<Option<Float64>>)
    ensures
        elements@ == values@.map_values(|value: Float64| Some(value)),
{
    let mut elements: Vec<Option<Float64>> = Vec::new();
    for i in 0..values.len()
        invariant
            elements@ == values@.take(i as int).map_values(|value: Float64| Some(value)),
    {
        elements.push(Some(values[i]));
        assert(values@.take(i + 1) =~= values@.take(i as int).push(values@[i as int]));
        assert(elements@ =~= values@.take(i + 1).map_values(|value: Float64| Some(value)));
    }
    assert(values@.take(values@.len() as int) =~= values@);
    elements
}

/// An output that was given nothing is as it was.
proof fn lemma_replaced_none(elements: Seq<Option<Float64>>, output: OutputColumn)
    requires
        output.aligned(),
    ensures
        replaced(elements, 0, output, output),
{
    lemma_rows(output);
    assert(output.bits() =~= Seq::new(
        output.rows(),
        |i: int|
            if i < 0 {
                elements[i] is Some
            } else {
                output.bits()[i]
            },
    ));
    assert(output.stored() =~= Seq::new(
        output.rows(),
        |i: int|
            if i < 0 && elements[i] is Some {
                returned_cell(output.slot(), elements[i])->0
            } else {
                output.stored()[i]
            },
    ));
    assert(output.cells() =~= Seq::new(
        output.rows(),
        |i: int|
            if i < 0 {
                returned_cell(output.slot(), elements[i])->0
            } else {
                output.cells()[i]
            },
    ));
}

/// An output stores one value per slot.
proof fn lemma_rows(output: OutputColumn)
    ensures
        output.stored().len() == output.rows(),
        output.cells().len() == output.rows(),
{
}

/// Gives a returned column to the output: it replaces the output wholesale,
/// exactly or with an error.
#[verifier::loop_isolation(false)]
pub fn write_column_result(column: ColumnResult, output: &mut OutputColumn) -> (result: Result<
    (),
    String,
>)
    requires
        old(output).aligned(),
    ensures
        final(output).aligned(),
        wrote(column@, *old(output), *final(output), result),
{
    let ghost before = *output;
    let elements: Vec<Option<Float64>> = match column {
        ColumnResult::Nothing => {
            return Ok(());
        },
        ColumnResult::Elements(elements) => elements,
        ColumnResult::Dense(values) => spread(values),
    };
    let integral: bool = match output {
        OutputColumn::F64 { .. } => false,
        OutputColumn::I64 { .. } => true,
        OutputColumn::Key { .. } => {
            return Err(String::from_str("result: a returned column cannot fill a key output"));
        },
    };
    let rows: usize = output.len();
    if elements.len() != rows {
        let mut text = String::from_str("result: returned column has ");
        push_size(&mut text, elements.len());
        text.append(" elements for ");
        push_size(&mut text, rows);
        text.append(" output rows");
        return Err(text);
    }
    let ghost slot = output.slot();
    proof {
        lemma_replaced_none(elements@, *output);
    }
    for offset in 0..rows
        invariant
            rows == elements@.len(),
            rows == before.rows(),
            rows == output.rows(),
            output.aligned(),
            slot == (if integral {
                ReturnType::I64
            } else {
                ReturnType::F64
            }),
            first_unfit(slot, elements@, 0) == first_unfit(slot, elements@, offset as nat),
            replaced(elements@, offset as nat, before, *output),
    {
        let coerced: Coerced = match elements[offset] {
            None => Coerced::Null,
            Some(value) => if integral {
                match float_as_i64_exact(value) {
                    Some(integer) => Coerced::I64(integer),
                    None => {
                        return Err(
                            String::from_str("result: float element does not fit i64 exactly"),
                        );
                    },
                }
            } else {
                Coerced::F64(value)
            },
        };
        assert(returned_cell(slot, elements@[offset as int]) == Some(filled_cell(coerced)));
        output.fill(offset, coerced);
        proof {
            lemma_rows(before);
            lemma_rows(*output);
            let n = (offset + 1) as nat;
            assert(output.bits() =~= Seq::new(
                before.rows(),
                |i: int|
                    if i < n {
                        elements@[i] is Some
                    } else {
                        before.bits()[i]
                    },
            ));
            assert(output.stored() =~= Seq::new(
                before.rows(),
                |i: int|
                    if i < n && elements@[i] is Some {
                        returned_cell(before.slot(), elements@[i])->0
                    } else {
                        before.stored()[i]
                    },
            ));
            assert(output.cells() =~= Seq::new(
                before.rows(),
                |i: int|
                    if i < n {
                        returned_cell(before.slot(), elements@[i])->0
                    } else {
                        before.cells()[i]
                    },
            ));
        }
    }
    Ok(())
}

} // verus!
