//! Streams: batches handed over one at a time, all under one schema.
//!
//! The producer's half ([`ArrowArrayStream`]) answers each request for a
//! batch; whoever drives it pulls the batch and passes it in. The consumer's
//! half ([`StreamReader`]) is given each answer and says what it means.
use super::array::{
    array_layout, array_spec, counts_exportable, describes_array, export_array, import_array,
    lemma_batch_round_trip, settled_batch, ArrowArray,
};
use super::format::{
    describes_schema, export_schema, lemma_schema_round_trip, parse_schema, schema_exportable,
    schema_layout, schema_spec, ArrowSchema, ImportError,
};
use crate::column::ColumnModel;
use crate::schema::{batch_rows, BatchModel, FieldModel, RecordBatch, Schema};
use crate::text::{push_signed_decimal, signed_decimal};
use vstd::prelude::*;

verus! {

/// Error number returned by stream callbacks on invalid input.
pub const EINVAL: i32 = 22;

/// The text of an optional message.
pub open spec fn text_or_none(text: Option<String>) -> Option<Seq<char>> {
    match text {
        Some(message) => Some(message@),
        None => None,
    }
}

/// A stream of batches sharing one schema, as its producer keeps it.
pub struct ArrowArrayStream {
    schema: Schema,
    last_error: Option<String>,
    live: bool,
}

impl ArrowArrayStream {
    /// The schema that every batch must have.
    pub closed spec fn fields(&self) -> Seq<FieldModel> {
        self.schema@
    }

    /// The last error's text, if there was one.
    pub closed spec fn error(&self) -> Option<Seq<char>> {
        text_or_none(self.last_error)
    }

    /// Not released yet.
    pub closed spec fn is_live(&self) -> bool {
        self.live
    }

    /// A blank stream, for out-parameters: not a live export.
    pub fn empty() -> (stream: Self)
        ensures
            !stream.is_live(),
            stream.fields().len() == 0,
            stream.error() is None,
    {
        ArrowArrayStream { schema: Schema::new(Vec::new()), last_error: None, live: false }
    }

    /// Whether the stream is not released yet.
    pub fn live(&self) -> (live: bool)
        ensures
            live == self.is_live(),
    {
        self.live
    }

    /// Answers a request for the schema.
    pub fn get_schema(&self) -> (schema: ArrowSchema)
        requires
            schema_exportable(self.fields()),
        ensures
            describes_schema(schema, self.fields()),
    {
        export_schema(&self.schema)
    }

    /// Answers a request for the next batch, given what there is to hand
    /// over: the batch, if it has the stream's schema; an error, if it has
    /// another; the end of the stream, if there is none.
    pub fn get_next(&mut self, pulled: Option<&RecordBatch>) -> (answer: (i32, ArrowArray))
        requires
            old(self).is_live(),
            pulled matches Some(batch) ==> counts_exportable(batch@.columns),
        ensures
            final(self).fields() == old(self).fields(),
            final(self).is_live(),
            match pulled {
                Some(batch) => if batch@.schema == old(self).fields() {
                    answer.0 == 0 && describes_array(answer.1, batch@.columns)
                        && final(self).error() == old(self).error()
                } else {
                    answer.0 == EINVAL && !answer.1.live && final(self).error() == Some(
                        "batch schema differs from stream schema"@,
                    )
                },
                None => answer.0 == 0 && !answer.1.live && final(self).error() == old(
                    self,
                ).error(),
            },
    {
        match pulled {
            Some(batch) => {
                if *batch.schema() == self.schema {
                    (0, export_array(batch))
                } else {
                    self.last_error = Some(
                        String::from_str("batch schema differs from stream schema"),
                    );
                    (EINVAL, ArrowArray::empty())
                }
            },
            None => (0, ArrowArray::empty()),
        }
    }

    /// The last error, if there was one.
    pub fn get_last_error(&self) -> (error: Option<&str>)
        ensures
            match error {
                Some(text) => self.error() == Some(text@),
                None => self.error() is None,
            },
    {
        match &self.last_error {
            Some(text) => Some(text.as_str()),
            None => None,
        }
    }

    /// Releases the stream. A second call changes nothing.
    pub fn release(&mut self)
        ensures
            !final(self).is_live(),
            final(self).fields() == old(self).fields(),
            final(self).error() == old(self).error(),
    {
        self.live = false;
    }
}

/// Exports a stream of batches sharing `schema`.
pub fn export_stream(schema: Schema) -> (stream: ArrowArrayStream)
    ensures
        stream.is_live(),
        stream.fields() == schema@,
        stream.error() is None,
{
    ArrowArrayStream { schema, last_error: None, live: true }
}

/// What a failed request is reported as: the callback, its code, and what
/// the stream says of it.
pub open spec fn callback_failure(what: Seq<char>, code: i32, detail: Option<&str>) -> Seq<char> {
    what + " failed ("@ + signed_decimal(code as int) + "): "@ + (match detail {
        Some(text) => text@,
        None => "(no error detail)"@,
    })
}

/// Reports a failed request.
fn failure(what: &str, code: i32, detail: Option<&str>) -> (error: ImportError)
    ensures
        error@ == callback_failure(what@, code, detail),
{
    let mut text = what.to_owned();
    text.append(" failed (");
    push_signed_decimal(&mut text, code as i64);
    text.append("): ");
    match detail {
        Some(detail) => text.append(detail),
        None => text.append("(no error detail)"),
    }
    ImportError::new(text.as_str())
}

/// What the answer to a request for a batch means: a failure, the end of the
/// stream, or a batch (or why it is none).
pub open spec fn answer_spec(
    schema: Seq<FieldModel>,
    code: i32,
    array: ArrowArray,
    detail: Option<&str>,
) -> Option<Result<Seq<ColumnModel>, Seq<char>>> {
    if code != 0 {
        Some(Err(callback_failure("get_next"@, code, detail)))
    } else if !array.live {
        None
    } else {
        Some(array_spec(schema, array))
    }
}

/// What the answer to a request for the schema means.
pub open spec fn schema_answer_spec(
    code: i32,
    schema: ArrowSchema,
    detail: Option<&str>,
) -> Result<Seq<FieldModel>, Seq<char>> {
    if code != 0 {
        Err(callback_failure("get_schema"@, code, detail))
    } else {
        schema_spec(schema)
    }
}

/// The consumer's half of a stream: its schema, and what each answer means.
pub struct StreamReader {
    schema: Schema,
}

impl StreamReader {
    /// The stream's schema.
    pub closed spec fn fields(&self) -> Seq<FieldModel> {
        self.schema@
    }

    /// Checks that a stream has the callbacks that reading it takes.
    pub fn check_callbacks(get_schema: bool, get_next: bool) -> (checked: Result<(), ImportError>)
        ensures
            match checked {
                Ok(()) => get_schema && get_next,
                Err(error) => error@ == (if !get_schema {
                    "stream has no get_schema"@
                } else {
                    "stream has no get_next"@
                }) && !(get_schema && get_next),
            },
    {
        if !get_schema {
            return Err(ImportError::new("stream has no get_schema"));
        }
        if !get_next {
            return Err(ImportError::new("stream has no get_next"));
        }
        Ok(())
    }

    /// A reader, from the answer to the request for the schema.
    pub fn new(code: i32, schema: &ArrowSchema, detail: Option<&str>) -> (opened: Result<
        StreamReader,
        ImportError,
    >)
        requires
            code == 0 ==> schema_layout(*schema),
        ensures
            match opened {
                Ok(reader) => schema_answer_spec(code, *schema, detail) == Ok::<
                    Seq<FieldModel>,
                    Seq<char>,
                >(reader.fields()),
                Err(error) => schema_answer_spec(code, *schema, detail) == Err::<
                    Seq<FieldModel>,
                    Seq<char>,
                >(error@),
            },
    {
        if code != 0 {
            return Err(failure("get_schema", code, detail));
        }
        match parse_schema(schema) {
            Ok(schema) => Ok(StreamReader { schema }),
            Err(error) => Err(error),
        }
    }

    /// The stream's schema.
    pub fn schema(&self) -> (schema: &Schema)
        ensures
            schema@ == self.fields(),
    {
        &self.schema
    }

    /// The next batch, from the answer to a request for it: `None` at the
    /// end of the stream.
    pub fn next(&self, code: i32, array: ArrowArray, detail: Option<&str>) -> (item: Option<
        Result<RecordBatch, ImportError>,
    >)
        requires
            code == 0 && array.live ==> array_layout(self.fields(), array),
        ensures
            match item {
                None => answer_spec(self.fields(), code, array, detail) is None,
                Some(Ok(batch)) => batch@.schema == self.fields() && answer_spec(
                    self.fields(),
                    code,
                    array,
                    detail,
                ) == Some(Ok::<Seq<ColumnModel>, Seq<char>>(batch@.columns)),
                Some(Err(error)) => answer_spec(self.fields(), code, array, detail) == Some(
                    Err::<Seq<ColumnModel>, Seq<char>>(error@),
                ),
            },
    {
        if code != 0 {
            return Some(Err(failure("get_next", code, detail)));
        }
        if !array.live {
            return None;
        }
        Some(import_array(&self.schema, array))
    }
}

/// A stream read by a reader: the schema that was exported opens it, each
/// batch comes back as the batch that was handed over, and the end of the
/// stream is the end of the reading.
pub proof fn lemma_stream_round_trip(
    opening: ArrowSchema,
    array: ArrowArray,
    end: ArrowArray,
    batch: BatchModel,
    detail: Option<&str>,
)
    requires
        describes_schema(opening, batch.schema),
        describes_array(array, batch.columns),
        !end.live,
        batch.consistent(),
        schema_exportable(batch.schema),
        batch.schema.len() <= usize::MAX,
        batch_rows(batch.columns) <= usize::MAX,
    ensures
        schema_layout(opening),
        schema_answer_spec(0, opening, detail) == Ok::<Seq<FieldModel>, Seq<char>>(batch.schema),
        array_layout(batch.schema, array),
        answer_spec(batch.schema, 0, array, detail) == Some(
            Ok::<Seq<ColumnModel>, Seq<char>>(settled_batch(batch).columns),
        ),
        answer_spec(batch.schema, 0, end, detail) is None,
{
    lemma_schema_round_trip(opening, batch.schema);
    lemma_batch_round_trip(opening, array, batch);
}

} // verus!
