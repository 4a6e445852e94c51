//! Catalog records as they are stored: the record, its versions, and the
//! invariants a record must meet before it is persisted.
use vstd::prelude::*;

use crate::ident::ArxivId;
use crate::text::str_eq;

verus! {

/// An instant with the offset it was written in: seconds since the Unix
/// epoch, and the offset east of UTC in seconds.
#[derive(Debug, Clone, Copy, PartialEq, Eq)]
pub struct Timestamp {
    pub utc_seconds: i64,
    pub offset_seconds: i32,
}

/// One version of a record.
pub struct Version {
    pub number: u32,
    /// When this version was submitted.
    pub date: Timestamp,
    /// The declared size, as the catalog writes it (`"12kb"`).
    pub size: String,
    /// The catalog's source-type code; an open vocabulary.
    pub source_type: Option<String>,
    /// The earliest response date at which this version was observed.
    pub first_encounter: String,
}

/// A catalog record.
pub struct ArticleMetadata {
    pub id: ArxivId,
    pub submitter: String,
    pub versions: Vec<Version>,
    pub title: String,
    pub authors: String,
    /// The first category is the primary one.
    pub categories: Vec<String>,
    pub comments: Option<String>,
    pub proxy: Option<String>,
    pub report_no: Option<String>,
    pub acm_classes: Option<String>,
    pub msc_classes: Option<String>,
    pub journal_ref: Option<String>,
    pub doi: Option<String>,
    pub license: Option<String>,
    pub abstract_: String,
    pub last_change: Option<String>,
    pub sets: Option<Vec<String>>,
}

/// Why a record is not fit to be stored.
#[derive(Debug, Clone, Copy, PartialEq, Eq)]
pub enum RecordError {
    NoVersions,
    NoCategories,
    /// Some version does not carry the number of its position, counted from one.
    VersionNumber,
}

/// The numbers of a list of versions.
pub open spec fn version_numbers(vs: Seq<Version>) -> Seq<u32> {
    vs.map_values(|v: Version| v.number)
}

/// Version numbers run 1, 2, 3, ... in order.
pub open spec fn numbered_from_one(ns: Seq<u32>) -> bool {
    forall|i: int| 0 <= i < ns.len() ==> #[trigger] ns[i] == i + 1
}

/// What `validate` reports for a record with these version numbers and this
/// many categories.
pub open spec fn record_check(ns: Seq<u32>, n_categories: nat) -> Result<(), RecordError> {
    if ns.len() == 0 {
        Err(RecordError::NoVersions)
    } else if n_categories == 0 {
        Err(RecordError::NoCategories)
    } else if numbered_from_one(ns) {
        Ok(())
    } else {
        Err(RecordError::VersionNumber)
    }
}

impl ArticleMetadata {
    /// At least one version, at least one category, versions numbered from one.
    pub open spec fn wf(&self) -> bool {
        record_check(version_numbers(self.versions@), self.categories@.len()) is Ok
    }

    /// Checks the record's invariants; the error names the first one broken,
    /// in the order versions, categories, numbering.
    pub fn validate(&self) -> (r: Result<(), RecordError>)
        ensures
            r == record_check(version_numbers(self.versions@), self.categories@.len()),
    {
        if self.versions.len() == 0 {
            return Err(RecordError::NoVersions);
        }
        if self.categories.len() == 0 {
            return Err(RecordError::NoCategories);
        }
        let mut i: usize = 0;
        while i < self.versions.len()
            invariant
                i <= self.versions@.len(),
                self.categories@.len() > 0,
                forall|j: int| 0 <= j < i ==> #[trigger] version_numbers(self.versions@)[j] == j + 1,
            decreases self.versions@.len() - i,
        {
            if self.versions[i].number as usize != i + 1 {
                assert(version_numbers(self.versions@)[i as int] != i + 1);
                return Err(RecordError::VersionNumber);
            }
            i = i + 1;
        }
        Ok(())
    }

    pub fn first_version(&self) -> (r: &Version)
        requires
            self.versions@.len() > 0,
        ensures
            r == self.versions@[0],
    {
        &self.versions[0]
    }

    pub fn last_version(&self) -> (r: &Version)
        requires
            self.versions@.len() > 0,
        ensures
            r == self.versions@.last(),
    {
        &self.versions[self.versions.len() - 1]
    }
}

/// A source-type code equal to `code`.
pub open spec fn source_type_is(t: Option<String>, code: Seq<char>) -> bool {
    t is Some && t->Some_0@ == code
}

pub open spec fn withdrawn_spec(v: Version) -> bool {
    source_type_is(v.source_type, "I"@) || v.size@ == "0kb"@
}

pub open spec fn src_secret_spec(v: Version) -> bool {
    v.source_type is Some && v.source_type->Some_0@.len() > 0 && v.source_type->Some_0@[0] == 'S'
}

fn source_type_equals(t: &Option<String>, code: &str) -> (r: bool)
    ensures
        r == source_type_is(*t, code@),
{
    match t {
        Some(s) => str_eq(s.as_str(), code),
        None => false,
    }
}

impl Version {
    /// Code `I`, or a size of `0kb`: both have been seen on withdrawn versions.
    pub fn probably_withdrawn(&self) -> (r: bool)
        ensures
            r == withdrawn_spec(*self),
    {
        source_type_equals(&self.source_type, "I") || str_eq(self.size.as_str(), "0kb")
    }

    /// Codes starting with `S` mark sources that are not public.
    pub fn probably_src_secret(&self) -> (r: bool)
        ensures
            r == src_secret_spec(*self),
    {
        match &self.source_type {
            Some(t) => {
                let s = t.as_str();
                s.unicode_len() > 0 && s.get_char(0) == 'S'
            },
            None => false,
        }
    }

    /// Not withdrawn and not code `H` (an HTML-only submission).
    pub fn probably_has_pdf(&self) -> (r: bool)
        ensures
            r == (!withdrawn_spec(*self) && !source_type_is(self.source_type, "H"@)),
    {
        !self.probably_withdrawn() && !source_type_equals(&self.source_type, "H")
    }

    /// Neither withdrawn nor with secret sources.
    pub fn probably_has_src(&self) -> (r: bool)
        ensures
            r == (!withdrawn_spec(*self) && !src_secret_spec(*self)),
    {
        !self.probably_withdrawn() && !self.probably_src_secret()
    }
}

} // verus!
