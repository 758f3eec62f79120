//! Script diagnostics: what `log(...)` hands to the embedder.
//!
//! A message is its arguments as text, joined by tabs. A view logs as a
//! summary, never its contents. Nothing comes back, so a message cannot
//! change an answer.
use crate::lua::values::ColumnView;
use crate::text::{decimal, lossy, lossy_text, push_size};
use vstd::prelude::*;

verus! {

/// Where scripts' messages go; installed by the embedder.
pub trait LogSink: Send {
    /// Takes one message, already flattened to text.
    fn log(&self, message: &str);
}

/// The summary of a view.
pub open spec fn summary_text(view: ColumnView<'_>) -> Seq<char> {
    (match view {
        ColumnView::F64 { .. } => "f64 view, len "@,
        ColumnView::I64 { .. } => "i64 view, len "@,
        ColumnView::Key { .. } => "key view, len "@,
    }) + decimal(view.rows())
}

/// What a view logs as: its type and length.
pub fn view_summary(view: &ColumnView<'_>) -> (summary: String)
    ensures
        summary@ == summary_text(*view),
{
    let mut summary = String::from_str(
        match view {
            ColumnView::F64 { .. } => "f64 view, len ",
            ColumnView::I64 { .. } => "i64 view, len ",
            ColumnView::Key { .. } => "key view, len ",
        },
    );
    push_size(&mut summary, view.len());
    summary
}

/// What a view's mask logs as: its length.
pub fn mask_summary(view: &ColumnView<'_>) -> (summary: String)
    ensures
        summary@ == "mask, len "@ + decimal(view.rows()),
{
    let mut summary = String::from_str("mask, len ");
    push_size(&mut summary, view.len());
    summary
}

/// The texts joined by tabs.
pub open spec fn joined(pieces: Seq<Seq<char>>) -> Seq<char>
    decreases pieces.len(),
{
    if pieces.len() == 0 {
        Seq::empty()
    } else if pieces.len() == 1 {
        pieces[0]
    } else {
        joined(pieces.drop_last()) + "\t"@ + pieces.last()
    }
}

/// The texts of byte strings.
pub open spec fn lossy_texts(pieces: Seq<Vec<u8>>) -> Seq<Seq<char>> {
    pieces.map_values(|piece: Vec<u8>| lossy_text(piece@))
}

/// Assembles a message from its arguments' texts, given as bytes.
pub fn message_of(pieces: &[Vec<u8>]) -> (message: String)
    ensures
        message@ == joined(lossy_texts(pieces@)),
{
    let mut message = String::from_str("");
    proof {
        reveal_strlit("");
        assert(message@ =~= joined(lossy_texts(pieces@.take(0))));
    }
    for i in 0..pieces.len()
        invariant
            message@ == joined(lossy_texts(pieces@.take(i as int))),
    {
        let ghost before = lossy_texts(pieces@.take(i as int));
        let ghost after = lossy_texts(pieces@.take(i + 1));
        assert(after.drop_last() =~= before);
        assert(after.last() == lossy_text(pieces@[i as int]@));
        let piece: String = lossy(pieces[i].as_slice());
        if i > 0 {
            message.append("\t");
        }
        message.append(piece.as_str());
        assert(message@ =~= joined(after));
    }
    assert(pieces@.take(pieces@.len() as int) =~= pieces@);
    message
}

} // verus!
