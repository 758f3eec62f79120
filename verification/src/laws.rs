//! What holds of the library's operations, whatever they are given: how
//! results relate to the values that went in, and how calls relate to each
//! other. Each statement speaks of the values themselves, bit by bit or row
//! by row.
pub mod calls;
pub mod columns;
pub mod equality;
pub mod import;
pub mod interchange;
pub mod numbers;
pub mod parts;
pub mod runs;
pub mod scripts;
pub mod series;
pub mod stored;
pub mod values;

use vstd::prelude::*;

verus! {

/// Row `i` holds a value: there is no bitmap, or its bit is set.
pub open spec fn holds(mask: Option<Seq<bool>>, i: int) -> bool {
    mask is None || mask->0[i]
}

/// The text has the part in it.
pub open spec fn mentions(text: Seq<char>, part: Seq<char>) -> bool {
    exists|before: Seq<char>, after: Seq<char>| text == #[trigger] (before + part + after)
}

} // verus!
