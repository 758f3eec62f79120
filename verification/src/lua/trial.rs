//! A trial form of the value map, in which null crosses as nil: a nullable
//! input reads nil where it is null, and writing nil to an output marks the
//! slot null without deleting it.
use crate::float64::Float64;
use crate::lua::values::{answer, refusal, Reply, ReplyModel};
use vstd::prelude::*;

verus! {

/// A value as a script writes it.
pub enum TrialValue {
    /// Nil.
    Nil,
    /// A number.
    Number(Float64),
    /// Anything else.
    Other,
}

/// What a slot reads as.
pub open spec fn trial_cell(values: Seq<Float64>, valid: Seq<bool>, i: int) -> ReplyModel {
    if valid[i] {
        ReplyModel::Number(values[i])
    } else {
        ReplyModel::Nil
    }
}

/// Where an index points, or why it points nowhere.
pub open spec fn trial_index(
    index: Option<i64>,
    len: nat,
    not_integer: Seq<char>,
    out_of_range: Seq<char>,
) -> Result<int, Seq<char>> {
    match index {
        None => Err(not_integer),
        Some(i) => if i < 1 || i > len {
            Err(out_of_range)
        } else {
            Ok(i - 1)
        },
    }
}

/// Resolves an index.
fn resolve(
    index: Option<i64>,
    len: usize,
    not_integer: &'static str,
    out_of_range: &'static str,
) -> (offset: Result<usize, &'static str>)
    ensures
        match offset {
            Ok(o) => trial_index(index, len as nat, not_integer@, out_of_range@) == Ok::<
                int,
                Seq<char>,
            >(o as int),
            Err(message) => trial_index(index, len as nat, not_integer@, out_of_range@) == Err::<
                int,
                Seq<char>,
            >(message@),
        },
{
    match index {
        None => Err(not_integer),
        Some(i) => {
            if i < 1 || i as u64 > len as u64 {
                return Err(out_of_range);
            }
            Ok((i - 1) as usize)
        },
    }
}

/// An input whose nulls read as nil.
pub struct NullableView<'a> {
    /// The values.
    pub values: &'a [Float64],
    /// One flag per value.
    pub valid: &'a [bool],
}

impl<'a> NullableView<'a> {
    /// One flag per value.
    pub open spec fn aligned(&self) -> bool {
        self.valid@.len() == self.values@.len()
    }

    /// Reads an element.
    pub fn index(&self, index: Option<i64>) -> (reply: Result<Reply, &'static str>)
        requires
            self.aligned(),
        ensures
            answer(reply) == match trial_index(
                index,
                self.values@.len(),
                "view index must be an integer"@,
                "view index out of range"@,
            ) {
                Ok(offset) => Ok(trial_cell(self.values@, self.valid@, offset)),
                Err(message) => Err(message),
            },
    {
        match resolve(
            index,
            self.values.len(),
            "view index must be an integer",
            "view index out of range",
        ) {
            Ok(offset) => {
                if self.valid[offset] {
                    Ok(Reply::Number(self.values[offset]))
                } else {
                    Ok(Reply::Nil)
                }
            },
            Err(message) => Err(message),
        }
    }
}

/// An output whose slots are marked null by nil.
pub struct OutputView {
    values: Vec<Float64>,
    valid: Vec<bool>,
}

impl OutputView {
    #[verifier::type_invariant]
    spec fn aligned(self) -> bool {
        self.valid@.len() == self.values@.len()
    }

    /// What the slots read as.
    pub closed spec fn cells(&self) -> Seq<ReplyModel> {
        Seq::new(self.values@.len(), |i: int| trial_cell(self.values@, self.valid@, i))
    }

    /// An output of `len` slots, all null.
    pub fn new(len: usize) -> (output: OutputView)
        ensures
            output.cells() == Seq::new(len as nat, |i: int| ReplyModel::Nil),
    {
        let mut values: Vec<Float64> = Vec::new();
        let mut valid: Vec<bool> = Vec::new();
        for i in 0..len
            invariant
                values@.len() == i,
                valid@.len() == i,
                forall|j: int| 0 <= j < i ==> !valid@[j],
        {
            values.push(Float64::from_bits(0));
            valid.push(false);
        }
        let output = OutputView { values, valid };
        assert(output.cells() =~= Seq::new(len as nat, |i: int| ReplyModel::Nil));
        output
    }

    /// Number of slots.
    pub fn len(&self) -> (len: usize)
        ensures
            len == self.cells().len(),
    {
        self.values.len()
    }

    /// Reads a slot back.
    pub fn index(&self, index: Option<i64>) -> (reply: Result<Reply, &'static str>)
        ensures
            answer(reply) == match trial_index(
                index,
                self.cells().len(),
                "output index must be an integer"@,
                "output index out of range"@,
            ) {
                Ok(offset) => Ok(self.cells()[offset]),
                Err(message) => Err(message),
            },
    {
        proof {
            use_type_invariant(self);
        }
        match resolve(
            index,
            self.values.len(),
            "output index must be an integer",
            "output index out of range",
        ) {
            Ok(offset) => {
                if self.valid[offset] {
                    Ok(Reply::Number(self.values[offset]))
                } else {
                    Ok(Reply::Nil)
                }
            },
            Err(message) => Err(message),
        }
    }

    /// Writes a slot: a number fills it, nil marks it null and keeps it.
    pub fn newindex(&mut self, index: Option<i64>, value: &TrialValue) -> (written: Result<
        (),
        &'static str,
    >)
        ensures
            match trial_index(
                index,
                old(self).cells().len(),
                "output index must be an integer"@,
                "output index out of range"@,
            ) {
                Err(message) => refusal(written) == Some(message) && final(self).cells() == old(
                    self).cells(),
                Ok(offset) => match value {
                    TrialValue::Nil => written is Ok && final(self).cells() == old(
                        self).cells().update(offset, ReplyModel::Nil),
                    TrialValue::Number(number) => written is Ok && final(self).cells() == old(
                        self).cells().update(offset, ReplyModel::Number(*number)),
                    TrialValue::Other => refusal(written) == Some(
                        "output expects a number or nil"@,
                    ) && final(self).cells() == old(self).cells(),
                },
            },
    {
        proof {
            use_type_invariant(&*self);
        }
        let offset: usize = match resolve(
            index,
            self.values.len(),
            "output index must be an integer",
            "output index out of range",
        ) {
            Ok(offset) => offset,
            Err(message) => {
                return Err(message);
            },
        };
        let mut values: Vec<Float64> = Vec::new();
        let mut valid: Vec<bool> = Vec::new();
        match value {
            TrialValue::Other => {
                return Err("output expects a number or nil");
            },
            _ => {},
        }
        let ghost before = *self;
        let mut held = OutputView { values, valid };
        std::mem::swap(self, &mut held);
        values = held.values;
        valid = held.valid;
        match value {
            TrialValue::Number(number) => {
                values.set(offset, *number);
                valid.set(offset, true);
            },
            _ => {
                valid.set(offset, false);
            },
        }
        *self = OutputView { values, valid };
        assert(match value {
            TrialValue::Number(number) => self.cells() =~= before.cells().update(
                offset as int,
                ReplyModel::Number(*number),
            ),
            _ => self.cells() =~= before.cells().update(offset as int, ReplyModel::Nil),
        });
        Ok(())
    }
}

} // verus!
