//! Host functions: engine-side operations that scripts call over whole
//! columns.
//!
//! A host function takes float views without nulls and gives one value, or
//! none where the operation is undefined, which scripts see as null. An error
//! becomes the script's error, and a panic does not pass the boundary.
use crate::float64::Float64;
use crate::lua::values::{ColumnView, Reply, ReplyModel};
use crate::lua::vector::Argument;
use crate::text::{decimal, push_size};
use vstd::prelude::*;

verus! {

/// The most view arguments a host function may take.
pub const MAX_ARGS: usize = 8;

/// One engine-side operation callable from scripts.
pub trait HostFunction: Send {
    /// Number of column views the function takes.
    fn arity(&self) -> usize;

    /// Evaluates the operation, on as many columns as the arity says.
    fn call(&self, args: &[&[Float64]]) -> Result<Option<Float64>, String>;
}

/// Why a host function cannot be registered, if so.
pub open spec fn registration_failure(name: Seq<char>, arity: nat) -> Option<Seq<char>> {
    if arity == 0 || arity > MAX_ARGS {
        Some(
            "host function '"@ + name + "' takes "@ + decimal(arity)
                + " arguments; supported range is 1..="@ + decimal(MAX_ARGS as nat),
        )
    } else if name.contains('\0') {
        Some("function name '"@ + name + "' contains an interior NUL"@)
    } else {
        None
    }
}

/// Whether a text holds the character NUL.
pub fn has_nul(text: &str) -> (found: bool)
    ensures
        found == text@.contains('\0'),
{
    let len: usize = text.unicode_len();
    for i in 0..len
        invariant
            len == text@.len(),
            forall|j: int| 0 <= j < i ==> text@[j] != '\0',
    {
        if text.get_char(i) == '\0' {
            return true;
        }
    }
    false
}

/// Checks a registration: the arity is supported and the name can be a
/// global's.
pub fn check_registration(name: &str, arity: usize) -> (checked: Result<(), String>)
    ensures
        match checked {
            Ok(()) => registration_failure(name@, arity as nat) is None,
            Err(text) => registration_failure(name@, arity as nat) == Some(text@),
        },
{
    if arity == 0 || arity > MAX_ARGS {
        let mut text = String::from_str("host function '");
        text.append(name);
        text.append("' takes ");
        push_size(&mut text, arity);
        text.append(" arguments; supported range is 1..=");
        push_size(&mut text, MAX_ARGS);
        return Err(text);
    }
    if has_nul(name) {
        let mut text = String::from_str("function name '");
        text.append(name);
        text.append("' contains an interior NUL");
        return Err(text);
    }
    Ok(())
}

/// The floats an argument of a host function stands for, or why it stands
/// for none.
pub open spec fn slice_spec(argument: Argument<'_>) -> Result<Seq<Float64>, Seq<char>> {
    match argument {
        Argument::View { view, born, generation } => if born != generation {
            Err("view used outside its call"@)
        } else {
            match view {
                ColumnView::F64 { floats, .. } => if forall|i: int|
                    0 <= i < view.rows() ==> view.valid(i) {
                    Ok(floats@)
                } else {
                    Err("host functions take non-null input; this view carries NULLs"@)
                },
                _ => Err("host functions take f64 views"@),
            }
        },
        _ => Err("host functions take column views"@),
    }
}

/// Reads an argument of a host function: a float view without nulls.
pub fn f64_view_slice<'a>(argument: &Argument<'a>) -> (slice: Result<&'a [Float64], &'static str>)
    requires
        argument.aligned(),
    ensures
        match slice {
            Ok(floats) => slice_spec(*argument) == Ok::<Seq<Float64>, Seq<char>>(floats@),
            Err(message) => slice_spec(*argument) == Err::<Seq<Float64>, Seq<char>>(message@),
        },
{
    match argument {
        Argument::View { view, born, generation } => {
            if *born != *generation {
                return Err("view used outside its call");
            }
            match view {
                ColumnView::F64 { floats, .. } => {
                    if !view.is_dense() {
                        return Err("host functions take non-null input; this view carries NULLs");
                    }
                    Ok(*floats)
                },
                _ => Err("host functions take f64 views"),
            }
        },
        _ => Err("host functions take column views"),
    }
}

/// The first of the first `n` arguments that is refused.
pub open spec fn first_refusal(arguments: Seq<Argument<'_>>, n: nat) -> Option<Seq<char>>
    decreases n,
{
    if n == 0 {
        None
    } else {
        match first_refusal(arguments, (n - 1) as nat) {
            Some(message) => Some(message),
            None => match slice_spec(arguments[n - 1]) {
                Err(message) => Some(message),
                Ok(_) => None,
            },
        }
    }
}

/// Reads all arguments of a host function.
pub fn host_arguments<'a>(arity: usize, arguments: &[Argument<'a>]) -> (slices: Result<
    Vec<&'a [Float64]>,
    &'static str,
>)
    requires
        forall|i: int| 0 <= i < arguments@.len() ==> arguments@[i].aligned(),
    ensures
        match slices {
            Ok(slices) => {
                &&& arguments@.len() == arity
                &&& first_refusal(arguments@, arity as nat) is None
                &&& slices@.len() == arity
                &&& forall|i: int|
                    0 <= i < arity ==> slice_spec(arguments@[i]) == Ok::<Seq<Float64>, Seq<char>>(
                        #[trigger] slices@[i]@,
                    )
            },
            Err(message) => if arguments@.len() != arity {
                message@ == "wrong number of view arguments"@
            } else {
                first_refusal(arguments@, arity as nat) == Some(message@)
            },
        },
{
    if arguments.len() != arity {
        return Err("wrong number of view arguments");
    }
    let mut slices: Vec<&'a [Float64]> = Vec::new();
    for i in 0..arity
        invariant
            arguments@.len() == arity,
            forall|j: int| 0 <= j < arguments@.len() ==> arguments@[j].aligned(),
            first_refusal(arguments@, i as nat) is None,
            slices@.len() == i,
            forall|j: int|
                0 <= j < i ==> slice_spec(arguments@[j]) == Ok::<Seq<Float64>, Seq<char>>(
                    #[trigger] slices@[j]@,
                ),
    {
        match f64_view_slice(&arguments[i]) {
            Ok(slice) => {
                slices.push(slice);
            },
            Err(message) => {
                proof {
                    assert(first_refusal(arguments@, (i + 1) as nat) == Some(message@));
                    lemma_refusal_stays(arguments@, (i + 1) as nat, arity as nat);
                }
                return Err(message);
            },
        }
    }
    Ok(slices)
}

/// A refusal among the first arguments is the refusal of all of them.
proof fn lemma_refusal_stays(arguments: Seq<Argument<'_>>, n: nat, m: nat)
    requires
        n <= m,
        first_refusal(arguments, n) is Some,
    ensures
        first_refusal(arguments, m) == first_refusal(arguments, n),
    decreases m,
{
    if n < m {
        lemma_refusal_stays(arguments, n, (m - 1) as nat);
    }
}

/// What a call into the embedder came to, panics contained.
pub enum Outcome<T> {
    /// It returned.
    Returned(T),
    /// It reported an error.
    Failed(String),
    /// It panicked.
    Panicked,
}

/// A reply or an error's text, as a model.
pub open spec fn spoken(result: Result<Reply, String>) -> Result<ReplyModel, Seq<char>> {
    match result {
        Ok(reply) => Ok(reply@),
        Err(text) => Err(text@),
    }
}

/// What a host function's outcome is to the script: its value, null where
/// the operation is undefined, or an error.
pub fn host_reply(outcome: Outcome<Option<Float64>>) -> (reply: Result<Reply, String>)
    ensures
        spoken(reply) == match outcome {
            Outcome::Returned(Some(value)) => Ok(ReplyModel::Number(value)),
            Outcome::Returned(None) => Ok(ReplyModel::Null),
            Outcome::Failed(text) => Err(text@),
            Outcome::Panicked => Err("host function panicked"@),
        },
{
    match outcome {
        Outcome::Returned(Some(value)) => Ok(Reply::Number(value)),
        Outcome::Returned(None) => Ok(Reply::Null),
        Outcome::Failed(text) => Err(text),
        Outcome::Panicked => Err(String::from_str("host function panicked")),
    }
}

} // verus!
