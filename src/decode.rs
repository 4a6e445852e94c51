//! The response decoder: a page, as the protocol's XML carries it, read into
//! plain values; then each record turned into typed values, or the reason it
//! cannot be.
use vstd::prelude::*;

use crate::calendar::{parse_rfc2822, rfc2822_instant};
use crate::ident::{valid_id, ArxivId};
use crate::merge::{IncomingRecord, IncomingVersion};
use crate::record::Timestamp;
use crate::text::{parse_u32, parsed_u32, push_char, str_eq};

verus! {

/// An error that the protocol reports: its code and optional text.
#[derive(Debug)]
pub struct OaiError {
    pub code: String,
    pub value: Option<String>,
}

/// A version element, as text.
pub struct RawVersion {
    /// `v1`, `v2`, ...
    pub version: String,
    /// An RFC 2822 date.
    pub date: String,
    pub size: String,
    pub source_type: Option<String>,
}

/// A record element, as text.
pub struct RawRecord {
    /// The header's datestamp: when the record last changed.
    pub datestamp: String,
    /// The partitions the header lists.
    pub sets: Vec<String>,
    pub id: String,
    pub submitter: String,
    pub versions: Vec<RawVersion>,
    pub title: String,
    pub authors: String,
    /// Space-separated categories, the primary one first.
    pub categories: String,
    pub comments: Option<String>,
    pub proxy: Option<String>,
    pub report_no: Option<String>,
    pub acm_classes: Option<String>,
    pub msc_classes: Option<String>,
    pub journal_ref: Option<String>,
    pub doi: Option<String>,
    pub license: Option<String>,
    pub abstract_: String,
}

/// The list of records of a page and the resumption token's value, if the
/// page carries a non-empty one.
pub struct RawListRecords {
    pub records: Vec<RawRecord>,
    pub resumption_token: Option<String>,
}

/// A decoded page of a record listing.
pub struct RawResponse {
    pub response_date: String,
    pub errors: Vec<OaiError>,
    pub list_records: Option<RawListRecords>,
}

/// A decoded page of a partition listing.
pub struct RawSetList {
    pub errors: Vec<OaiError>,
    /// The names of the listed partitions, if the page has a listing.
    pub sets: Option<Vec<String>>,
    /// Whether the listing continues on another page.
    pub has_resumption_token: bool,
}

/// Why a page or a record could not be decoded.
#[derive(Debug, Clone, Copy, PartialEq, Eq)]
pub enum DecodeError {
    /// The page was not declared with the expected media type.
    ContentType,
    /// The response date has fewer than ten characters.
    ResponseDate,
    /// A record identifier breaks the identifier syntax.
    Id,
    /// A version number lacks its `v` or is not a number.
    VersionNumber,
    /// A version date is not an RFC 2822 date.
    VersionDate,
    /// The page has neither errors nor a list of records.
    MissingList,
}

/// Checks the declared media type of a page: it must be `text/xml`.
pub fn check_content_type(content_type: Option<&str>) -> (r: Result<(), DecodeError>)
    ensures
        r is Ok <==> (content_type is Some && content_type->Some_0@ == "text/xml"@),
        r is Err ==> r->Err_0 == DecodeError::ContentType,
{
    match content_type {
        Some(t) => if str_eq(t, "text/xml") {
            Ok(())
        } else {
            Err(DecodeError::ContentType)
        },
        None => Err(DecodeError::ContentType),
    }
}

/// The day of a response date: its first ten characters (`YYYY-MM-DD`).
pub open spec fn day_of(s: Seq<char>) -> Option<Seq<char>> {
    if s.len() >= 10 {
        Some(s.subrange(0, 10))
    } else {
        None
    }
}

/// The day of a response date, or an error if it is too short.
pub fn response_day(response_date: &str) -> (r: Result<String, DecodeError>)
    ensures
        match day_of(response_date@) {
            Some(d) => r is Ok && r->Ok_0@ == d,
            None => r == Err::<String, DecodeError>(DecodeError::ResponseDate),
        },
{
    if response_date.unicode_len() >= 10 {
        Ok(String::from_str(response_date.substring_char(0, 10)))
    } else {
        Err(DecodeError::ResponseDate)
    }
}

/// The pieces of `s` between single spaces: `"a b"` gives `a`, `b`; two
/// spaces in a row give an empty piece.
pub open spec fn split_spaces(s: Seq<char>) -> Seq<Seq<char>>
    decreases s.len(),
{
    if s.len() == 0 {
        seq![Seq::empty()]
    } else if s.last() == ' ' {
        split_spaces(s.drop_last()).push(Seq::empty())
    } else {
        let p = split_spaces(s.drop_last());
        p.update(p.len() - 1, p.last().push(s.last()))
    }
}

pub proof fn lemma_split_nonempty(s: Seq<char>)
    ensures
        split_spaces(s).len() >= 1,
    decreases s.len(),
{
    if s.len() > 0 {
        lemma_split_nonempty(s.drop_last());
    }
}

/// Splits a text at single spaces (a category list, a line of columns).
pub fn split_on_spaces(s: &str) -> (r: Vec<String>)
    ensures
        r@.map_values(|x: String| x@) == split_spaces(s@),
{
    let n = s.unicode_len();
    let mut done: Vec<String> = Vec::new();
    let mut cur = String::new();
    let mut i: usize = 0;
    assert(s@.subrange(0, 0) =~= Seq::<char>::empty());
    while i < n
        invariant
            n == s@.len(),
            i <= n,
            done@.map_values(|x: String| x@).push(cur@) == split_spaces(s@.subrange(0, i as int)),
        decreases n - i,
    {
        let c = s.get_char(i);
        let ghost before = s@.subrange(0, i as int);
        assert(s@.subrange(0, i + 1).drop_last() =~= before);
        if c == ' ' {
            let mut fresh = String::new();
            core::mem::swap(&mut fresh, &mut cur);
            done.push(fresh);
            assert(done@.map_values(|x: String| x@).push(cur@) =~= split_spaces(
                s@.subrange(0, i + 1),
            ));
        } else {
            push_char(&mut cur, c);
            proof {
                lemma_split_nonempty(before);
            }
            assert(done@.map_values(|x: String| x@).push(cur@) =~= split_spaces(
                s@.subrange(0, i + 1),
            ));
        }
        i = i + 1;
    }
    done.push(cur);
    assert(s@.subrange(0, n as int) =~= s@);
    done
}

/// The number a version label `v<digits>` carries.
#[verifier::opaque]
pub open spec fn version_label_number(s: Seq<char>) -> Option<u32> {
    if s.len() > 0 && s[0] == 'v' {
        parsed_u32(s.drop_first())
    } else {
        None
    }
}

/// Reads a version number label such as `v2`.
pub fn parse_version_label(s: &str) -> (r: Option<u32>)
    ensures
        r == version_label_number(s@),
{
    reveal(version_label_number);
    let n = s.unicode_len();
    if n > 0 && s.get_char(0) == 'v' {
        let rest = s.substring_char(1, n);
        assert(rest@ =~= s@.drop_first());
        parse_u32(rest)
    } else {
        None
    }
}

/// Whether a version element decodes, and to what number and instant.
pub open spec fn version_decodes(v: RawVersion) -> bool {
    version_label_number(v.version@) is Some && rfc2822_instant(v.date@) is Some
}

/// `w` is the typed form of `v`.
pub open spec fn decoded_version(w: IncomingVersion, v: RawVersion) -> bool {
    &&& Some(w.number) == version_label_number(v.version@)
    &&& rfc2822_instant(v.date@) == Some((w.date.utc_seconds, w.date.offset_seconds))
    &&& w.size == v.size
    &&& w.source_type == v.source_type
}

/// The error a version element gives, if any: the number is read first.
pub open spec fn version_error(v: RawVersion) -> Option<DecodeError> {
    if version_label_number(v.version@) is None {
        Some(DecodeError::VersionNumber)
    } else if rfc2822_instant(v.date@) is None {
        Some(DecodeError::VersionDate)
    } else {
        None
    }
}

/// Reads a version element.
pub fn decode_version(v: RawVersion) -> (r: Result<IncomingVersion, DecodeError>)
    ensures
        match version_error(v) {
            Some(e) => r == Err::<IncomingVersion, DecodeError>(e),
            None => r is Ok && decoded_version(r->Ok_0, v),
        },
{
    let number = match parse_version_label(v.version.as_str()) {
        Some(n) => n,
        None => {
            return Err(DecodeError::VersionNumber);
        },
    };
    let date: Timestamp = match parse_rfc2822(v.date.as_str()) {
        Some(t) => t,
        None => {
            return Err(DecodeError::VersionDate);
        },
    };
    Ok(IncomingVersion { number, date, size: v.size, source_type: v.source_type })
}

/// The error a record element gives, if any: the identifier first, then the
/// versions in order.
pub open spec fn record_error(r: RawRecord) -> Option<DecodeError> {
    if !valid_id(r.id@) {
        Some(DecodeError::Id)
    } else {
        versions_error(r.versions@)
    }
}

/// The error of the first version element that gives one.
pub open spec fn versions_error(vs: Seq<RawVersion>) -> Option<DecodeError> {
    if exists|i: int| 0 <= i < vs.len() && version_error(vs[i]) is Some {
        version_error(
            vs[choose|i: int|
                0 <= i < vs.len() && version_error(vs[i]) is Some && forall|j: int|
                    0 <= j < i ==> version_error(#[trigger] vs[j]) is None],
        )
    } else {
        None
    }
}

proof fn lemma_first_error(vs: Seq<RawVersion>, k: int)
    requires
        0 <= k < vs.len(),
        version_error(vs[k]) is Some,
        forall|j: int| 0 <= j < k ==> version_error(#[trigger] vs[j]) is None,
    ensures
        versions_error(vs) == version_error(vs[k]),
{
    let w = choose|i: int|
        0 <= i < vs.len() && version_error(vs[i]) is Some && forall|j: int|
            0 <= j < i ==> version_error(#[trigger] vs[j]) is None;
    assert(0 <= k < vs.len() && version_error(vs[k]) is Some && forall|j: int|
        0 <= j < k ==> version_error(#[trigger] vs[j]) is None);
    if w < k {
        assert(version_error(vs[w]) is None);
    }
    if k < w {
        assert(version_error(vs[k]) is None);
    }
}

/// Reads version elements in order, stopping at the first that fails.
fn decode_versions(vs: Vec<RawVersion>) -> (r: Result<Vec<IncomingVersion>, DecodeError>)
    ensures
        match versions_error(vs@) {
            Some(e) => r == Err::<Vec<IncomingVersion>, DecodeError>(e),
            None => r is Ok && r->Ok_0@.len() == vs@.len() && forall|i: int|
                0 <= i < vs@.len() ==> decoded_version(#[trigger] r->Ok_0@[i], vs@[i]),
        },
{
    let ghost orig = vs@;
    let mut rest = vs;
    let mut versions: Vec<IncomingVersion> = Vec::new();
    while rest.len() > 0
        invariant
            orig == vs@,
            versions@.len() + rest@.len() == orig.len(),
            rest@ == orig.subrange(versions@.len() as int, orig.len() as int),
            forall|i: int|
                0 <= i < versions@.len() ==> decoded_version(#[trigger] versions@[i], orig[i]),
            forall|i: int| 0 <= i < versions@.len() ==> version_error(#[trigger] orig[i]) is None,
        decreases rest@.len(),
    {
        let ghost k = versions@.len() as int;
        let v = rest.remove(0);
        assert(v == orig[k]);
        match decode_version(v) {
            Ok(w) => {
                versions.push(w);
            },
            Err(e) => {
                proof {
                    lemma_first_error(orig, k);
                }
                return Err(e);
            },
        }
        assert(rest@ =~= orig.subrange(versions@.len() as int, orig.len() as int));
    }
    assert(!exists|i: int| 0 <= i < orig.len() && version_error(orig[i]) is Some);
    Ok(versions)
}

/// `m` is the typed form of `r`.
pub open spec fn decoded_record(m: IncomingRecord, r: RawRecord) -> bool {
    &&& m.id@ == r.id@
    &&& m.submitter == r.submitter
    &&& m.versions@.len() == r.versions@.len()
    &&& forall|i: int|
        0 <= i < m.versions@.len() ==> decoded_version(#[trigger] m.versions@[i], r.versions@[i])
    &&& m.title == r.title
    &&& m.authors == r.authors
    &&& m.categories@.map_values(|x: String| x@) == split_spaces(r.categories@)
    &&& m.comments == r.comments
    &&& m.proxy == r.proxy
    &&& m.report_no == r.report_no
    &&& m.acm_classes == r.acm_classes
    &&& m.msc_classes == r.msc_classes
    &&& m.journal_ref == r.journal_ref
    &&& m.doi == r.doi
    &&& m.license == r.license
    &&& m.abstract_ == r.abstract_
    &&& m.last_change == Some(r.datestamp)
    &&& m.sets == Some(r.sets)
}

/// Reads a record element.
pub fn decode_record(r: RawRecord) -> (out: Result<IncomingRecord, DecodeError>)
    ensures
        match record_error(r) {
            Some(e) => out == Err::<IncomingRecord, DecodeError>(e),
            None => out is Ok && decoded_record(out->Ok_0, r),
        },
{
    let id = match ArxivId::parse(r.id.as_str()) {
        Ok(id) => id,
        Err(_) => {
            return Err(DecodeError::Id);
        },
    };
    let versions = match decode_versions(r.versions) {
        Ok(vs) => vs,
        Err(e) => {
            return Err(e);
        },
    };
    let categories = split_on_spaces(r.categories.as_str());
    Ok(
        IncomingRecord {
            id,
            submitter: r.submitter,
            versions,
            title: r.title,
            authors: r.authors,
            categories,
            comments: r.comments,
            proxy: r.proxy,
            report_no: r.report_no,
            acm_classes: r.acm_classes,
            msc_classes: r.msc_classes,
            journal_ref: r.journal_ref,
            doi: r.doi,
            license: r.license,
            abstract_: r.abstract_,
            last_change: Some(r.datestamp),
            sets: Some(r.sets),
        },
    )
}

} // verus!
