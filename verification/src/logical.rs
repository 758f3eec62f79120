//! Logical-type annotations: how an integer column asks to be seen at
//! export.
//!
//! In the engine there are only physical types. An annotation records that
//! an integer column means nanoseconds since the epoch, or a fixed-point
//! amount, and is consulted only at export.
//!
//! Annotations cross format boundaries as integers. The registry is
//! append-only and never renumbered: 0 is reserved for no annotation, 1 is a
//! timestamp, 2 a decimal with its scale as payload.
use crate::column::ColumnType;
use crate::text::{decimal, lemma_decimal_unique, push_decimal};
use vstd::prelude::*;

verus! {

/// Maximum decimal digits a 64-bit decimal can carry; also the precision
/// exported for every decimal column.
pub const DECIMAL64_PRECISION: u8 = 18;

/// An export-time annotation over a physical integer column.
#[derive(Clone, Copy, PartialEq, Eq, Debug, Structural)]
pub enum LogicalType {
    /// Nanoseconds since the Unix epoch, no timezone.
    TimestampNs,
    /// A fixed-point value: the stored integer times ten to the minus scale.
    Decimal64 {
        /// Digits after the decimal point; at most [`DECIMAL64_PRECISION`].
        scale: u8,
    },
}

impl LogicalType {
    /// The frozen serialization tag.
    pub open spec fn tag_spec(self) -> u8 {
        match self {
            LogicalType::TimestampNs => 1,
            LogicalType::Decimal64 { .. } => 2,
        }
    }

    /// The payload stored beside the tag.
    pub open spec fn payload_spec(self) -> u8 {
        match self {
            LogicalType::TimestampNs => 0,
            LogicalType::Decimal64 { scale } => scale,
        }
    }

    /// Whether the annotation is one that storage and export accept.
    pub open spec fn in_range(self) -> bool {
        self matches LogicalType::Decimal64 { scale } ==> scale <= DECIMAL64_PRECISION
    }

    /// The Arrow format string.
    pub open spec fn format_text(self) -> Seq<char> {
        match self {
            LogicalType::TimestampNs => "tsn:"@,
            LogicalType::Decimal64 { scale } => "d:"@ + decimal(DECIMAL64_PRECISION as nat) + ","@
                + decimal(scale as nat) + ",64"@,
        }
    }

    /// This annotation's frozen serialization tag.
    pub fn tag(&self) -> (tag: u8)
        ensures
            tag == self.tag_spec(),
    {
        match self {
            LogicalType::TimestampNs => 1,
            LogicalType::Decimal64 { .. } => 2,
        }
    }

    /// Rebuilds an annotation from its stored tag and payload.
    ///
    /// The payload byte carries a decimal's scale and is ignored by
    /// annotations without one. Unknown tags, the reserved tag 0 and
    /// out-of-range payloads give `None`.
    pub fn from_parts(tag: u8, payload: u8) -> (logical: Option<LogicalType>)
        ensures
            logical == parts_spec(tag, payload),
    {
        match tag {
            1 => Some(LogicalType::TimestampNs),
            2 => if payload <= DECIMAL64_PRECISION {
                Some(LogicalType::Decimal64 { scale: payload })
            } else {
                None
            },
            _ => None,
        }
    }

    /// Whether this annotation may sit on a column of `column_type`: only on
    /// integers.
    pub fn valid_for(&self, column_type: ColumnType) -> (valid: bool)
        ensures
            valid == (column_type == ColumnType::I64),
    {
        match column_type {
            ColumnType::I64 => true,
            _ => false,
        }
    }

    /// The Arrow C Data Interface format string export renders for an
    /// integer column carrying this annotation.
    pub fn c_data_format(&self) -> (format: String)
        requires
            self.in_range(),
        ensures
            format@ == self.format_text(),
    {
        match *self {
            LogicalType::TimestampNs => String::from_str("tsn:"),
            LogicalType::Decimal64 { scale } => {
                let mut format = String::from_str("d:");
                push_decimal(&mut format, DECIMAL64_PRECISION as u64);
                format.append(",");
                push_decimal(&mut format, scale as u64);
                format.append(",64");
                format
            },
        }
    }
}

/// The annotation a stored tag and payload stand for.
pub open spec fn parts_spec(tag: u8, payload: u8) -> Option<LogicalType> {
    if tag == 1 {
        Some(LogicalType::TimestampNs)
    } else if tag == 2 && payload <= DECIMAL64_PRECISION {
        Some(LogicalType::Decimal64 { scale: payload })
    } else {
        None
    }
}

/// What is stored of an annotation reads back as that annotation, and
/// nothing out of range can be read back.
pub proof fn lemma_parts_round_trip(logical: LogicalType, tag: u8, payload: u8)
    requires
        logical.in_range(),
    ensures
        parts_spec(logical.tag_spec(), logical.payload_spec()) == Some(logical),
        parts_spec(tag, payload) matches Some(read) ==> read.in_range() && read.tag_spec() == tag,
        parts_spec(0, payload) is None,
{
}

/// Annotations that are exported as the same format are the same.
pub proof fn lemma_formats_distinct(a: LogicalType, b: LogicalType)
    requires
        a.format_text() == b.format_text(),
    ensures
        a == b,
{
    reveal_strlit("tsn:");
    reveal_strlit("d:");
    reveal_strlit(",");
    reveal_strlit(",64");
    match (a, b) {
        (LogicalType::Decimal64 { scale: x }, LogicalType::Decimal64 { scale: y }) => {
            let head = "d:"@ + decimal(DECIMAL64_PRECISION as nat) + ","@;
            let (xs, ys) = (decimal(x as nat), decimal(y as nat));
            assert(a.format_text() == head + xs + ",64"@);
            assert(b.format_text() == head + ys + ",64"@);
            assert(xs.len() == ys.len());
            let (from, to) = (head.len() as int, (head.len() + xs.len()) as int);
            assert(xs =~= a.format_text().subrange(from, to));
            assert(ys =~= b.format_text().subrange(from, to));
            lemma_decimal_unique(x as nat, y as nat);
        },
        (LogicalType::TimestampNs, LogicalType::Decimal64 { .. }) => {
            assert(a.format_text()[0] == 't' && b.format_text()[0] == 'd');
        },
        (LogicalType::Decimal64 { .. }, LogicalType::TimestampNs) => {
            assert(a.format_text()[0] == 'd' && b.format_text()[0] == 't');
        },
        (LogicalType::TimestampNs, LogicalType::TimestampNs) => {},
    }
}

} // verus!
