//! Failures that abort a dataset build.
use vstd::prelude::*;

verus! {

/// A fatal condition found while encoding or serializing a split. Any of
/// these aborts the whole build; lines that merely fail to split on the
/// configured separator are dropped instead and never reach this type.
#[derive(Clone, Copy, Debug, PartialEq, Eq, Structural)]
pub enum BuildError {
    /// A classification label was not present in the class list.
    UnknownLabel,
    /// A label field that must be a number (or a boolean) is not one.
    BadLabelValue,
    /// A tagging sample is longer than the configured maximum sequence
    /// length; tagging refuses to truncate.
    SequenceTooLong,
    /// A label or tag id does not fit its eight-bit storage column.
    LabelTooWide,
    /// A token id does not fit its thirty-two-bit storage column.
    IdTooWide,
}

} // verus!
