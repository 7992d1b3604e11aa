use vstd::prelude::*;

verus! {

/// The particular rule a malformed header broke.
#[derive(Clone, Copy, PartialEq, Eq, Structural, Debug)]
pub enum HeaderFault {
    /// The text ended before every required header line was seen.
    Missing,
    /// A line does not start with the key required at its position.
    Key,
    /// A line has the wrong number of tokens for its key, or the
    /// FIELDS/SIZE/TYPE/COUNT lists disagree in length.
    Arity,
    /// A SIZE/TYPE pair does not name a supported scalar type.
    Type,
    /// An unsigned integer token could not be parsed.
    Number,
    /// A VIEWPOINT token could not be parsed as a float.
    Float,
    /// The DATA line names neither `ascii` nor `binary`.
    Data,
    /// A COUNT entry is zero, or the per-point layout would overflow
    /// the machine's address range.
    Layout,
}

/// Every fault the codec reports.
#[derive(Clone, Copy, PartialEq, Eq, Structural, Debug)]
pub enum Error {
    /// The header is malformed: the 1-based line number and the rule broken.
    HeaderFormat { line: u64, fault: HeaderFault },
    /// An ASCII data line does not hold exactly one token per scalar slot
    /// of the schema; `point` is the 0-based index of the record.
    AsciiShape { point: u64 },
    /// An ASCII token could not be parsed as its field's scalar type;
    /// `slot` is the 0-based index of the offending scalar slot.
    BadToken { point: u64, slot: u64 },
    /// The data section ended before the declared number of points;
    /// `point` is the 0-based index of the first record that is missing
    /// or incomplete.
    Truncation { point: u64 },
    /// A statically typed record does not match the file's schema.
    Binding,
    /// A record handed to a writer does not match the writer's schema.
    WriteShape,
    /// More records were pushed than the writer's declared point count.
    WriteOverflow,
    /// The metadata handed to a writer builder is inconsistent.
    Meta,
}

} // verus!
