//! Scripts that drive the engine: one issues statements with `query` and
//! feeds rows back with `append`.
//!
//! What a statement means is the embedder's business. A row names every
//! column it fills, numbers cross exactly, and null is spelled, never implied
//! by absence. Outside a driving call both are refused, so a kernel cannot
//! enter the engine again in the middle of a query.
use crate::float64::Float64;
use crate::key::text_of;
use crate::lua::host::{has_nul, Outcome};
use crate::lua::values::{ColumnView, LuaValue, Reply, ReplyModel};
use vstd::prelude::*;
use vstd::utf8::{decode_utf8, valid_utf8};

verus! {

/// One value of a row that a script appends.
#[derive(Debug, Clone, PartialEq)]
pub enum ScriptValue {
    /// A float, for float columns.
    F64(Float64),
    /// An integer, exact, for integer columns.
    I64(i64),
    /// A string, for key columns.
    Text(String),
    /// Null.
    Null,
}

/// What a row's value holds.
pub enum ScriptModel {
    /// A float.
    F64(Float64),
    /// An integer.
    I64(i64),
    /// A string.
    Text(Seq<char>),
    /// Null.
    Null,
}

impl View for ScriptValue {
    type V = ScriptModel;

    open spec fn view(&self) -> ScriptModel {
        match self {
            ScriptValue::F64(value) => ScriptModel::F64(*value),
            ScriptValue::I64(value) => ScriptModel::I64(*value),
            ScriptValue::Text(value) => ScriptModel::Text(value@),
            ScriptValue::Null => ScriptModel::Null,
        }
    }
}

/// The result columns of a query, held until the script returns.
pub trait ResultColumns: Send {
    /// Total rows.
    fn rows(&self) -> usize;

    /// Column names with views over the held buffers, in result order.
    fn columns(&self) -> Vec<(String, ColumnView<'_>)>;
}

/// What one statement produced.
pub enum SqlOutcome {
    /// Columns, alive until the script returns.
    Rows(Box<dyn ResultColumns>),
    /// The number of rows affected.
    Affected(u64),
    /// No result.
    Done,
}

/// The embedder's half: which statements run, and where rows go.
pub trait ScriptHost {
    /// Runs one statement.
    fn statement(&mut self, sql: &str) -> Result<SqlOutcome, String>;

    /// Appends one row to a table and returns its row id.
    fn append(&mut self, table: &str, row: &[(String, ScriptValue)]) -> Result<u64, String>;
}

/// The text of a string argument, or why there is none. Numbers are not
/// turned into strings.
pub open spec fn string_spec(value: LuaValue, otherwise: Seq<char>) -> Result<
    Seq<char>,
    Seq<char>,
> {
    match value {
        LuaValue::Text(bytes) => if valid_utf8(bytes@) {
            Ok(decode_utf8(bytes@))
        } else {
            Err("argument is not valid UTF-8"@)
        },
        _ => Err(otherwise),
    }
}

/// Reads a string argument.
fn string_argument<'a>(value: &'a LuaValue, otherwise: &'static str) -> (text: Result<
    &'a str,
    &'static str,
>)
    ensures
        match text {
            Ok(text) => string_spec(*value, otherwise@) == Ok::<Seq<char>, Seq<char>>(text@),
            Err(message) => string_spec(*value, otherwise@) == Err::<Seq<char>, Seq<char>>(
                message@,
            ),
        },
{
    match value {
        LuaValue::Text(bytes) => match text_of(bytes.as_slice()) {
            Some(text) => Ok(text),
            None => Err("argument is not valid UTF-8"),
        },
        _ => Err(otherwise),
    }
}

/// The statement a call of `query` asks for, or why it is refused.
pub open spec fn query_spec(driving: bool, arguments: Seq<LuaValue>) -> Result<
    Seq<char>,
    Seq<char>,
> {
    if !driving {
        Err(
            "query/append drive the engine from a script (run_driver); kernels cannot re-enter the engine"@,
        )
    } else if arguments.len() != 1 {
        Err("query takes one SQL string"@)
    } else {
        string_spec(arguments[0], "query takes one SQL string"@)
    }
}

/// Reads a call of `query`: one string, inside a driving call.
pub fn query_request(driving: bool, arguments: &[LuaValue]) -> (sql: Result<&str, &'static str>)
    ensures
        match sql {
            Ok(sql) => query_spec(driving, arguments@) == Ok::<Seq<char>, Seq<char>>(sql@),
            Err(message) => query_spec(driving, arguments@) == Err::<Seq<char>, Seq<char>>(
                message@,
            ),
        },
{
    if !driving {
        return Err(
            "query/append drive the engine from a script (run_driver); kernels cannot re-enter the engine",
        );
    }
    if arguments.len() != 1 {
        return Err("query takes one SQL string");
    }
    string_argument(&arguments[0], "query takes one SQL string")
}

/// The value a row entry stands for, or why it stands for none.
pub open spec fn row_value(value: LuaValue) -> Option<ScriptModel> {
    match value {
        LuaValue::Null => Some(ScriptModel::Null),
        LuaValue::Integer(integer) => Some(ScriptModel::I64(integer)),
        LuaValue::Number(float) => Some(ScriptModel::F64(float)),
        LuaValue::Text(bytes) => if valid_utf8(bytes@) {
            Some(ScriptModel::Text(decode_utf8(bytes@)))
        } else {
            None
        },
        _ => None,
    }
}

/// The column and value one entry of a row stands for, or why it stands for
/// none.
pub open spec fn entry_spec(entry: (LuaValue, LuaValue)) -> Result<
    (Seq<char>, ScriptModel),
    Seq<char>,
> {
    match entry.0 {
        LuaValue::Text(name) => if !valid_utf8(name@) {
            Err("append: column name is not valid UTF-8"@)
        } else {
            match row_value(entry.1) {
                Some(value) => Ok((decode_utf8(name@), value)),
                None => Err(
                    "append: row values are numbers, strings, or NULL (views and vectors do not append whole; index one element)"@,
                ),
            }
        },
        _ => Err("append: row keys are column names (strings)"@),
    }
}

/// The first of the first `n` entries that is refused.
pub open spec fn first_malformed(entries: Seq<(LuaValue, LuaValue)>, n: nat) -> Option<Seq<char>>
    decreases n,
{
    if n == 0 {
        None
    } else {
        match first_malformed(entries, (n - 1) as nat) {
            Some(message) => Some(message),
            None => match entry_spec(entries[n - 1]) {
                Err(message) => Some(message),
                Ok(_) => None,
            },
        }
    }
}

/// A malformed entry among the first stays the first malformed one.
proof fn lemma_malformed_stays(entries: Seq<(LuaValue, LuaValue)>, n: nat, m: nat)
    requires
        n <= m,
        first_malformed(entries, n) is Some,
    ensures
        first_malformed(entries, m) == first_malformed(entries, n),
    decreases m,
{
    if n < m {
        lemma_malformed_stays(entries, n, (m - 1) as nat);
    }
}

/// Reads one entry of a row.
fn row_entry(entry: &(LuaValue, LuaValue)) -> (read: Result<(String, ScriptValue), &'static str>)
    ensures
        match read {
            Ok((name, value)) => entry_spec(*entry) == Ok::<(Seq<char>, ScriptModel), Seq<char>>(
                (name@, value@),
            ),
            Err(message) => entry_spec(*entry) == Err::<(Seq<char>, ScriptModel), Seq<char>>(
                message@,
            ),
        },
{
    let name: String = match &entry.0 {
        LuaValue::Text(bytes) => match text_of(bytes.as_slice()) {
            Some(text) => text.to_owned(),
            None => {
                return Err("append: column name is not valid UTF-8");
            },
        },
        _ => {
            return Err("append: row keys are column names (strings)");
        },
    };
    let value: Option<ScriptValue> = match &entry.1 {
        LuaValue::Null => Some(ScriptValue::Null),
        LuaValue::Integer(integer) => Some(ScriptValue::I64(*integer)),
        LuaValue::Number(float) => Some(ScriptValue::F64(*float)),
        LuaValue::Text(bytes) => match text_of(bytes.as_slice()) {
            Some(text) => Some(ScriptValue::Text(text.to_owned())),
            None => None,
        },
        _ => None,
    };
    match value {
        Some(value) => Ok((name, value)),
        None => Err(
            "append: row values are numbers, strings, or NULL (views and vectors do not append whole; index one element)",
        ),
    }
}

/// Why a call of `append` is refused before its row is read, if so.
pub open spec fn append_refusal(driving: bool, count: nat, table: LuaValue, is_row: bool) -> Option<
    Seq<char>,
> {
    if !driving {
        Some(
            "query/append drive the engine from a script (run_driver); kernels cannot re-enter the engine"@,
        )
    } else if count != 2 || !is_row {
        Some("append takes a table name and a row table"@)
    } else {
        match string_spec(table, "append takes a table name and a row table"@) {
            Ok(_) => None,
            Err(message) => Some(message),
        }
    }
}

/// Reads a call of `append`: a table name and a row, inside a driving call.
/// The row comes as its entries in the order they are met; none says that
/// the second argument is no table. The first malformed entry is reported.
pub fn append_request<'a>(
    driving: bool,
    count: usize,
    table: &'a LuaValue,
    row: Option<&[(LuaValue, LuaValue)]>,
) -> (request: Result<(&'a str, Vec<(String, ScriptValue)>), &'static str>)
    ensures
        match request {
            Ok((name, values)) => {
                &&& append_refusal(driving, count as nat, *table, row is Some) is None
                &&& string_spec(*table, ""@) == Ok::<Seq<char>, Seq<char>>(name@)
                &&& first_malformed(row->0@, row->0@.len()) is None
                &&& values@.len() == row->0@.len()
                &&& forall|i: int|
                    0 <= i < values@.len() ==> entry_spec(row->0@[i]) == Ok::<
                        (Seq<char>, ScriptModel),
                        Seq<char>,
                    >((#[trigger] values@[i].0@, values@[i].1@))
            },
            Err(message) => match append_refusal(driving, count as nat, *table, row is Some) {
                Some(refused) => message@ == refused,
                None => first_malformed(row->0@, row->0@.len()) == Some(message@),
            },
        },
{
    if !driving {
        return Err(
            "query/append drive the engine from a script (run_driver); kernels cannot re-enter the engine",
        );
    }
    if count != 2 {
        return Err("append takes a table name and a row table");
    }
    let entries: &[(LuaValue, LuaValue)] = match row {
        Some(entries) => entries,
        None => {
            return Err("append takes a table name and a row table");
        },
    };
    let name: &'a str = match string_argument(
        table,
        "append takes a table name and a row table",
    ) {
        Ok(name) => name,
        Err(message) => {
            return Err(message);
        },
    };
    let mut values: Vec<(String, ScriptValue)> = Vec::new();
    for i in 0..entries.len()
        invariant
            first_malformed(entries@, i as nat) is None,
            values@.len() == i,
            forall|j: int|
                0 <= j < i ==> entry_spec(entries@[j]) == Ok::<
                    (Seq<char>, ScriptModel),
                    Seq<char>,
                >((#[trigger] values@[j].0@, values@[j].1@)),
            append_refusal(driving, count as nat, *table, row is Some) is None,
            row == Some(entries),
    {
        match row_entry(&entries[i]) {
            Ok(pair) => {
                values.push(pair);
            },
            Err(message) => {
                proof {
                    assert(first_malformed(entries@, (i + 1) as nat) == Some(message@));
                    lemma_malformed_stays(entries@, (i + 1) as nat, entries@.len());
                }
                return Err(message);
            },
        }
    }
    Ok((name, values))
}

/// A count as scripts see it: the integer subtype has 64 bits, and a count
/// beyond its range wraps.
pub open spec fn count_integer(count: int) -> int {
    if count <= i64::MAX {
        count
    } else {
        count - 0x1_0000_0000_0000_0000
    }
}

/// Converts a count to a script's integer.
fn script_integer(count: u64) -> (integer: i64)
    ensures
        integer == count_integer(count as int),
{
    if count <= 0x7FFF_FFFF_FFFF_FFFF {
        count as i64
    } else {
        let below: u64 = 0xFFFF_FFFF_FFFF_FFFF - count;
        -1 - (below as i64)
    }
}

/// The name a result column goes by in messages: its own, unless it holds a
/// NUL.
pub fn result_name(name: &str) -> (named: &str)
    ensures
        named@ == if name@.contains('\0') {
            "result"@
        } else {
            name@
        },
{
    if has_nul(name) {
        "result"
    } else {
        name
    }
}

/// What a statement produced, as far as the script's reply depends on it.
pub enum Statement {
    /// Columns of this many rows.
    Rows(usize),
    /// The number of rows affected.
    Affected(u64),
    /// No result.
    Done,
}

/// What `query` gives back to a script.
pub enum QueryReply {
    /// One value.
    Value(Reply),
    /// The table of result columns, and the number of rows.
    Columns(i64),
}

/// What `query` gives back: the affected rows, true for a statement without
/// a result, the columns and their row count, or an error.
pub fn query_reply(outcome: Outcome<Statement>) -> (reply: Result<QueryReply, String>)
    ensures
        match outcome {
            Outcome::Returned(Statement::Affected(count)) => reply matches Ok(
                QueryReply::Value(value),
            ) && value@ == ReplyModel::Integer(count_integer(count as int) as i64),
            Outcome::Returned(Statement::Done) => reply matches Ok(QueryReply::Value(value))
                && value@ == ReplyModel::Boolean(true),
            Outcome::Returned(Statement::Rows(rows)) => reply matches Ok(QueryReply::Columns(count))
                && count == count_integer(rows as int),
            Outcome::Failed(text) => reply matches Err(message) && message@ == text@,
            Outcome::Panicked => reply matches Err(message) && message@ == "query host panicked"@,
        },
{
    match outcome {
        Outcome::Returned(Statement::Affected(count)) => Ok(
            QueryReply::Value(Reply::Integer(script_integer(count))),
        ),
        Outcome::Returned(Statement::Done) => Ok(QueryReply::Value(Reply::Boolean(true))),
        Outcome::Returned(Statement::Rows(rows)) => Ok(
            QueryReply::Columns(script_integer(rows as u64)),
        ),
        Outcome::Failed(text) => Err(text),
        Outcome::Panicked => Err(String::from_str("query host panicked")),
    }
}

/// What `append` gives back: the row id, or an error.
pub fn append_reply(outcome: Outcome<u64>) -> (reply: Result<Reply, String>)
    ensures
        crate::lua::host::spoken(reply) == match outcome {
            Outcome::Returned(id) => Ok(ReplyModel::Integer(count_integer(id as int) as i64)),
            Outcome::Failed(text) => Err(text@),
            Outcome::Panicked => Err("append host panicked"@),
        },
{
    match outcome {
        Outcome::Returned(id) => Ok(Reply::Integer(script_integer(id))),
        Outcome::Failed(text) => Err(text),
        Outcome::Panicked => Err(String::from_str("append host panicked")),
    }
}

} // verus!
