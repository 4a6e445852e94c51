//! How the records of a listing are ordered, shown and selected.
use vstd::prelude::*;

verus! {

/// The order in which a listing shows records.
#[derive(Debug, Clone, Copy, PartialEq, Eq)]
pub enum Order {
    /// By the submission date of the first version.
    Date,
    /// In the order in which the user first saw them.
    Seen,
}

/// How a listing shows records.
#[derive(Debug, Clone, Copy, PartialEq, Eq)]
pub enum LsFormat {
    /// Identifiers only.
    Quiet,
    /// One line per record.
    OneLine,
    /// Two lines per record.
    Short,
    /// One record at a time, interactively.
    Int,
    /// Open the PDF of the only matching record.
    Pdf,
    /// Open the directory of the only matching record.
    Dir,
    /// Open the web page of the only matching record.
    Web,
}

} // verus!
