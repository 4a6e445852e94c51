//! The harvest state machine. Each step takes the ledger and what the outside
//! world handed back (a decoded page, the stored records it names) and decides
//! the next state: which records to persist, how the ledger moves, and whether
//! another page is to be fetched.
use vstd::prelude::*;

use crate::calendar::{day_before, format_ymd, parse_ymd, prev_day, ymd_parse, ymd_text, CalendarDate};
use crate::decode::{
    day_of, decode_record, decoded_version, record_error, response_day, split_spaces, version_label_number,
    DecodeError, OaiError, RawRecord, RawResponse, RawSetList,
};
use crate::ledger::{
    category_spec, clone_of, finish_mark, finished, floors_rise, lemma_floors_rise_trans, raise_mark, opt_view, raised_all, raised_by,
    resumption_set, Continuation, Ledger, ResumptionData,
};
use crate::merge::{encounters, merge_encounters, merge_record, stored_encounters, MergeError};
use crate::record::{record_check, ArticleMetadata};
use crate::text::{lex_le, str_eq};

verus! {

/// Why a harvest step failed.
#[derive(Debug)]
pub enum HarvestError {
    Decode(DecodeError),
    /// The resumption token was stale or invalid. The partition's resumption
    /// state is cleared: commit, and a retry starts afresh from the mark.
    BadResumptionToken,
    /// The protocol reported these errors; nothing is to be committed.
    Protocol(Vec<OaiError>),
    /// A record could not be merged with the stored one.
    Record(MergeError),
    /// The partition's mark is not a `YYYY-MM-DD` date, or the day before it
    /// cannot be written as one.
    BadDate,
    /// No partition stands for the configured category.
    UnknownCategory,
    /// The partition listing spans more than one page, which is not supported.
    MultiPageSetList,
}

/// What a page that was absorbed asks for.
pub struct PageOutcome {
    /// The merged records to persist, in page order.
    pub records: Vec<ArticleMetadata>,
    /// Whether another page is to be fetched.
    pub more: bool,
}

/// The request that lists every change of `set` since `from` (all changes if
/// `from` is absent; the whole catalog if `set` is empty).
pub open spec fn list_request(set: Seq<char>, from: Option<Seq<char>>) -> Seq<char> {
    "verb=ListRecords&metadataPrefix=arXivRaw"@ + (if set.len() > 0 {
        "&set="@ + set
    } else {
        Seq::empty()
    }) + match from {
        Some(f) => "&from="@ + f,
        None => Seq::empty(),
    }
}

/// The request that continues a listing with resumption token `token`.
pub open spec fn resume_request(token: Seq<char>) -> Seq<char> {
    "verb=ListRecords&resumptionToken="@ + token
}

/// Writes the listing request for `set` from the day `from`; fails when that
/// day has no four-digit year.
pub fn list_request_text(set: &str, from: Option<CalendarDate>) -> (r: Result<String, HarvestError>)
    ensures
        match from {
            None => r is Ok && r->Ok_0@ == list_request(set@, None),
            Some(d) => if 0 <= d.year <= 9999 {
                r is Ok && r->Ok_0@ == list_request(set@, Some(ymd_text(d)))
            } else {
                r is Err && r->Err_0 == HarvestError::BadDate
            },
        },
{
    let mut s = String::from_str("verb=ListRecords&metadataPrefix=arXivRaw");
    if set.unicode_len() > 0 {
        s.append("&set=");
        s.append(set);
    }
    match from {
        None => {
            assert(s@ =~= list_request(set@, None));
            Ok(s)
        },
        Some(d) => match format_ymd(d) {
            Some(t) => {
                s.append("&from=");
                s.append(t.as_str());
                assert(s@ =~= list_request(set@, Some(ymd_text(d))));
                Ok(s)
            },
            None => Err(HarvestError::BadDate),
        },
    }
}

/// The first request of a fresh listing of `set` with mark `last_update`:
/// everything since the day before the mark, or everything without a mark.
pub open spec fn fresh_request(set: Seq<char>, last_update: Option<Seq<char>>, req: Seq<char>) -> bool {
    match last_update {
        None => req == list_request(set, None),
        Some(lu) => match ymd_parse(lu) {
            Some((y, m, d)) => req == list_request(
                set,
                Some(ymd_text(prev_day(CalendarDate { year: y, month: m, day: d }))),
            ),
            None => false,
        },
    }
}

/// A mark that reads as a date with a year from 1 to 9999.
pub open spec fn dated_mark(lu: Seq<char>) -> bool {
    ymd_parse(lu) matches Some((y, _, _)) && 1 <= y <= 9999
}

/// The first request of a fresh listing of `set`: everything since the day
/// before the mark `last_update`, so that a change on the mark's day is not
/// missed; everything if there is no mark. Fails when the mark is not a
/// date, or the day before it has no four-digit year.
pub fn initial_request(set: &str, last_update: Option<&str>) -> (r: Result<String, HarvestError>)
    ensures
        r is Ok ==> fresh_request(
            set@,
            match last_update {
                Some(l) => Some(l@),
                None => None,
            },
            r->Ok_0@,
        ),
        r is Err ==> r->Err_0 == HarvestError::BadDate,
        last_update is None ==> r is Ok,
        last_update is Some && ymd_parse(last_update->Some_0@) is None ==> r is Err,
        last_update is Some && dated_mark(last_update->Some_0@) ==> r is Ok,
{
    match last_update {
        None => list_request_text(set, None),
        Some(lu) => {
            let day = match parse_ymd(lu) {
                Some(d) => d,
                None => {
                    return Err(HarvestError::BadDate);
                },
            };
            match day_before(day) {
                Some(p) => list_request_text(set, Some(p)),
                None => Err(HarvestError::BadDate),
            }
        },
    }
}

/// The request state for the next page of `set`: the stored resumption state
/// verbatim if a fetch is in flight; otherwise request one of a fresh listing.
pub fn next_request(ledger: &Ledger, set: &str) -> (r: Result<ResumptionData, HarvestError>)
    requires
        ledger.wf(),
    ensures
        ({
            let pos = ledger.position(set@);
            let resuming = pos is Some && ledger.partitions@[pos->Some_0].continuation.resumption_data is Some;
            let mark = if pos is Some {
                opt_view(ledger.partitions@[pos->Some_0].continuation.last_update)
            } else {
                None
            };
            &&& resuming ==> r is Ok && clone_of(
                r->Ok_0,
                ledger.partitions@[pos->Some_0].continuation.resumption_data->Some_0,
            )
            &&& !resuming ==> match r {
                Ok(d) => {
                    &&& d.request_number == 1
                    &&& d.response_date is None
                    &&& fresh_request(set@, mark, d.resumption_request@)
                },
                Err(e) => e == HarvestError::BadDate && mark is Some,
            }
            &&& !resuming && (mark is None || dated_mark(mark->Some_0)) ==> r is Ok
        }),
{
    let cont = Continuation::read(ledger, set);
    match cont.resumption_data {
        Some(d) => Ok(d),
        None => {
            let req = match &cont.last_update {
                Some(lu) => initial_request(set, Some(lu.as_str())),
                None => initial_request(set, None),
            };
            match req {
                Ok(q) => Ok(ResumptionData { request_number: 1, resumption_request: q, response_date: None }),
                Err(e) => Err(e),
            }
        },
    }
}

/// Whether one of `errors` has the code `code`.
pub open spec fn has_code(errors: Seq<OaiError>, code: Seq<char>) -> bool {
    exists|i: int| 0 <= i < errors.len() && (#[trigger] errors[i]).code@ == code
}

fn any_code(errors: &Vec<OaiError>, code: &str) -> (r: bool)
    ensures
        r == has_code(errors@, code@),
{
    let mut i: usize = 0;
    while i < errors.len()
        invariant
            i <= errors@.len(),
            forall|j: int| 0 <= j < i ==> (#[trigger] errors@[j]).code@ != code@,
        decreases errors@.len() - i,
    {
        if str_eq(errors[i].code.as_str(), code) {
            return true;
        }
        i = i + 1;
    }
    false
}

/// The day of the first page of a run: kept in the request state from the
/// second page on, else the day `this_day` of the page at hand.
pub open spec fn first_day(data: ResumptionData, this_day: Seq<char>) -> Seq<char> {
    match data.response_date {
        Some(d) => d@,
        None => this_day,
    }
}

/// The version numbers that the version elements of a record carry.
pub open spec fn raw_numbers(r: RawRecord) -> Seq<u32> {
    r.versions@.map_values(|v: crate::decode::RawVersion| version_label_number(v.version@)->Some_0)
}

/// Whether a record element can be absorbed, given the stored record.
pub open spec fn absorbable(r: RawRecord, stored: Option<ArticleMetadata>) -> bool {
    &&& record_error(r) is None
    &&& stored_count(stored) <= r.versions@.len()
    &&& record_check(raw_numbers(r), split_spaces(r.categories@).len()) is Ok
}

pub open spec fn stored_count(stored: Option<ArticleMetadata>) -> nat {
    match stored {
        Some(a) => a.versions@.len(),
        None => 0,
    }
}

pub open spec fn stored_versions(stored: Option<ArticleMetadata>) -> Option<Seq<crate::record::Version>> {
    match stored {
        Some(a) => Some(a.versions@),
        None => None,
    }
}

/// `m` is what record element `r` becomes after merging with `stored` at day
/// `day`: every field as the page gives it, the categories split at spaces,
/// and the first-encounter dates merged with the stored ones.
pub open spec fn absorbed(m: ArticleMetadata, r: RawRecord, stored: Option<ArticleMetadata>, day: Seq<char>) -> bool {
    &&& m.wf()
    &&& m.id@ == r.id@
    &&& m.submitter == r.submitter
    &&& m.title == r.title
    &&& m.authors == r.authors
    &&& m.categories@.map_values(|x: String| x@) == split_spaces(r.categories@)
    &&& m.comments == r.comments
    &&& m.proxy == r.proxy
    &&& m.report_no == r.report_no
    &&& m.acm_classes == r.acm_classes
    &&& m.msc_classes == r.msc_classes
    &&& m.journal_ref == r.journal_ref
    &&& m.doi == r.doi
    &&& m.license == r.license
    &&& m.abstract_ == r.abstract_
    &&& m.last_change == Some(r.datestamp)
    &&& m.sets == Some(r.sets)
    &&& m.versions@.len() == r.versions@.len()
    &&& forall|i: int|
        0 <= i < m.versions@.len() ==> decoded_version(
            carried(#[trigger] m.versions@[i]),
            r.versions@[i],
        )
    &&& encounters(m.versions@) == merge_encounters(
        stored_encounters(stored_versions(stored)),
        r.versions@.len(),
        day,
    )
}

/// The upstream fields of a stored version.
pub open spec fn carried(v: crate::record::Version) -> crate::merge::IncomingVersion {
    crate::merge::IncomingVersion {
        number: v.number,
        date: v.date,
        size: v.size,
        source_type: v.source_type,
    }
}

/// Re-applying a page that was already absorbed, at any response date,
/// yields the same record: every field as before, and no first-encounter date
/// later than before. At the same date nothing changes at all.
pub proof fn lemma_page_reapplied(
    once: ArticleMetadata,
    twice: ArticleMetadata,
    r: RawRecord,
    stored: Option<ArticleMetadata>,
    day: Seq<char>,
    again: Seq<char>,
)
    requires
        stored_count(stored) <= r.versions@.len(),
        absorbed(once, r, stored, day),
        absorbed(twice, r, Some(once), again),
    ensures
        twice.id@ == once.id@,
        twice.submitter == once.submitter,
        twice.title == once.title,
        twice.authors == once.authors,
        twice.categories@.map_values(|x: String| x@) == once.categories@.map_values(|x: String| x@),
        twice.comments == once.comments,
        twice.proxy == once.proxy,
        twice.report_no == once.report_no,
        twice.acm_classes == once.acm_classes,
        twice.msc_classes == once.msc_classes,
        twice.journal_ref == once.journal_ref,
        twice.doi == once.doi,
        twice.license == once.license,
        twice.abstract_ == once.abstract_,
        twice.last_change == once.last_change,
        twice.sets == once.sets,
        twice.versions@.len() == once.versions@.len(),
        forall|i: int|
            0 <= i < twice.versions@.len() ==> carried(#[trigger] twice.versions@[i]) == carried(
                once.versions@[i],
            ),
        forall|i: int|
            0 <= i < twice.versions@.len() ==> lex_le(
                #[trigger] encounters(twice.versions@)[i],
                encounters(once.versions@)[i],
            ),
        again == day ==> encounters(twice.versions@) == encounters(once.versions@),
{
    let n = r.versions@.len();
    let old_e = stored_encounters(stored_versions(stored));
    assert(old_e.len() == stored_count(stored));
    assert(stored_encounters(stored_versions(Some(once))) == encounters(once.versions@));
    crate::merge::lemma_first_encounter_never_later(
        encounters(once.versions@),
        encounters(once.versions@),
        n,
        again,
    );
    if again == day {
        crate::merge::lemma_reapply_idempotent(old_e, n, day);
    }
    assert forall|i: int| 0 <= i < twice.versions@.len() implies carried(
        #[trigger] twice.versions@[i],
    ) == carried(once.versions@[i]) by {
        assert(decoded_version(carried(twice.versions@[i]), r.versions@[i]));
        assert(decoded_version(carried(once.versions@[i]), r.versions@[i]));
    }
}

/// Decodes and merges the records of a page, each with its stored record.
fn absorb_records(records: Vec<RawRecord>, stored: Vec<Option<ArticleMetadata>>, day: &str) -> (r:
    Result<Vec<ArticleMetadata>, HarvestError>)
    requires
        records@.len() == stored@.len(),
    ensures
        r is Ok <==> forall|k: int| 0 <= k < records@.len() ==> absorbable(#[trigger] records@[k], stored@[k]),
        r is Ok ==> r->Ok_0@.len() == records@.len() && forall|k: int|
            0 <= k < records@.len() ==> absorbed(#[trigger] r->Ok_0@[k], records@[k], stored@[k], day@),
        r is Err ==> (r->Err_0 is Decode || r->Err_0 is Record),
{
    let ghost recs = records@;
    let ghost olds = stored@;
    let mut rest = records;
    let mut rest_old = stored;
    let mut out: Vec<ArticleMetadata> = Vec::new();
    while rest.len() > 0
        invariant
            recs == records@,
            olds == stored@,
            recs.len() == olds.len(),
            out@.len() + rest@.len() == recs.len(),
            rest@.len() == rest_old@.len(),
            rest@ == recs.subrange(out@.len() as int, recs.len() as int),
            rest_old@ == olds.subrange(out@.len() as int, olds.len() as int),
            forall|k: int| 0 <= k < out@.len() ==> absorbable(#[trigger] recs[k], olds[k]),
            forall|k: int| 0 <= k < out@.len() ==> absorbed(#[trigger] out@[k], recs[k], olds[k], day@),
        decreases rest@.len(),
    {
        let ghost k = out@.len() as int;
        let raw = rest.remove(0);
        let old_rec = rest_old.remove(0);
        assert(raw == recs[k]);
        assert(old_rec == olds[k]);
        let inc = match decode_record(raw) {
            Ok(m) => m,
            Err(e) => {
                assert(!absorbable(recs[k], olds[k]));
                return Err(HarvestError::Decode(e));
            },
        };
        proof {
            assert(crate::merge::incoming_numbers(inc.versions@) =~= raw_numbers(recs[k]));
        }
        let merged = match merge_record(inc, old_rec.as_ref(), day) {
            Ok(m) => m,
            Err(e) => {
                assert(!absorbable(recs[k], olds[k]));
                return Err(HarvestError::Record(e));
            },
        };
        out.push(merged);
        assert(rest@ =~= recs.subrange(out@.len() as int, recs.len() as int));
        assert(rest_old@ =~= olds.subrange(out@.len() as int, olds.len() as int));
    }
    Ok(out)
}

/// The state that resumes a listing after page `data` with token `token`.
pub open spec fn resumed_with(
    next: ResumptionData,
    data: ResumptionData,
    token: Seq<char>,
    day: Seq<char>,
) -> bool {
    &&& next.request_number == data.request_number + 1
    &&& next.resumption_request@ == resume_request(token)
    &&& next.response_date is Some && next.response_date->Some_0@ == day
}

/// `b` is the ledger `a` after a page of records of `set` dated `this_day`,
/// in a run whose first page is dated `first`: every mark earlier than
/// `this_day` is raised to it (and that partition's resumption state
/// cleared); then `set` resumes with the token, or without one its listing is
/// finished as of `first`.
pub open spec fn ledger_after_page(
    a: Ledger,
    b: Ledger,
    set: Seq<char>,
    this_day: Seq<char>,
    first: Seq<char>,
    data: ResumptionData,
    token: Option<Seq<char>>,
) -> bool {
    &&& b.wf()
    &&& b.partitions@.len() == a.partitions@.len()
    &&& forall|i: int|
        0 <= i < a.partitions@.len() ==> {
            let p = #[trigger] a.partitions@[i];
            let q = b.partitions@[i];
            let lu = p.continuation.last_update;
            &&& q.name == p.name
            &&& q.category == p.category
            &&& if p.name@ == set {
                match token {
                    Some(t) => {
                        &&& opt_view(q.continuation.last_update) == raise_mark(opt_view(lu), this_day)
                        &&& q.continuation.resumption_data is Some
                        &&& resumed_with(q.continuation.resumption_data->Some_0, data, t, first)
                    },
                    None => {
                        &&& opt_view(q.continuation.last_update) == finish_mark(
                            raise_mark(opt_view(lu), this_day),
                            first,
                        )
                        &&& q.continuation.resumption_data is None
                    },
                }
            } else if raised_by(lu, this_day) {
                opt_view(q.continuation.last_update) == Some(this_day)
                    && q.continuation.resumption_data is None
            } else {
                q.continuation == p.continuation
            }
        }
    &&& floors_rise(a.floors(), b.floors())
}

proof fn lemma_after_page_resumed(
    a: Ledger,
    mid: Ledger,
    b: Ledger,
    set: Seq<char>,
    this_day: Seq<char>,
    first: Seq<char>,
    data: ResumptionData,
    t: Seq<char>,
    next: ResumptionData,
)
    requires
        raised_all(a, mid, this_day),
        resumed_with(next, data, t, first),
        resumption_set(mid, b, set, Some(next)),
    ensures
        ledger_after_page(a, b, set, this_day, first, data, Some(t)),
{
    assert forall|i: int| 0 <= i < a.partitions@.len() implies ({
        let p = #[trigger] a.partitions@[i];
        let m = mid.partitions@[i];
        let q = b.partitions@[i];
        &&& m.name == p.name
        &&& opt_view(m.continuation.last_update) == raise_mark(
            opt_view(p.continuation.last_update),
            this_day,
        )
        &&& (p.name@ == set ==> q.continuation.resumption_data == Some(next)
            && q.continuation.last_update == m.continuation.last_update)
        &&& (p.name@ != set ==> q == m)
    }) by {
        let p = a.partitions@[i];
        let m = mid.partitions@[i];
        assert(m.name == p.name);
    }
    lemma_floors_rise_trans(a.floors(), mid.floors(), b.floors());
}

proof fn lemma_after_page_finished(
    a: Ledger,
    mid: Ledger,
    b: Ledger,
    set: Seq<char>,
    this_day: Seq<char>,
    first: Seq<char>,
    data: ResumptionData,
)
    requires
        raised_all(a, mid, this_day),
        finished(mid, b, set, first),
    ensures
        ledger_after_page(a, b, set, this_day, first, data, None),
{
    assert forall|i: int| 0 <= i < a.partitions@.len() implies ({
        let p = #[trigger] a.partitions@[i];
        let m = mid.partitions@[i];
        let q = b.partitions@[i];
        &&& m.name == p.name
        &&& opt_view(m.continuation.last_update) == raise_mark(
            opt_view(p.continuation.last_update),
            this_day,
        )
        &&& (p.name@ == set ==> opt_view(q.continuation.last_update) == finish_mark(
            opt_view(m.continuation.last_update),
            first,
        ))
    }) by {
        let p = a.partitions@[i];
        let m = mid.partitions@[i];
        assert(m.name == p.name);
    }
    lemma_floors_rise_trans(a.floors(), mid.floors(), b.floors());
}

/// Absorbs one page of the listing of `set`, fetched with request state
/// `data`; `stored[k]` is the stored record with the identifier of the page's
/// record `k`, if any.
///
/// - A stale token clears the resumption state and fails with
///   `BadResumptionToken`: that ledger is to be committed.
/// - "No matches" finishes the listing as of the first page's day.
/// - Records are merged at this page's day; then every partition's mark is
///   raised to this page's day, and the resumption state is set from the
///   token (keeping the first page's day) or, without one, the listing is
///   finished as of the first page's day.
/// - Every other failure leaves the ledger as it was.
pub fn absorb_page(
    ledger: &mut Ledger,
    set: &str,
    data: ResumptionData,
    page: RawResponse,
    stored: Vec<Option<ArticleMetadata>>,
) -> (r: Result<PageOutcome, HarvestError>)
    requires
        old(ledger).wf(),
        data.request_number < usize::MAX,
        page.list_records is Some ==> stored@.len() == page.list_records->Some_0.records@.len(),
    ensures
        final(ledger).wf(),
        match day_of(page.response_date@) {
            None => r is Err && r->Err_0 == HarvestError::Decode(DecodeError::ResponseDate)
                && *final(ledger) == *old(ledger),
            Some(day) => if page.errors@.len() > 0 {
                if has_code(page.errors@, "badResumptionToken"@) {
                    r is Err && r->Err_0 == HarvestError::BadResumptionToken && resumption_set(
                        *old(ledger),
                        *final(ledger),
                        set@,
                        None,
                    )
                } else if has_code(page.errors@, "noRecordsMatch"@) {
                    r is Ok && r->Ok_0.records@.len() == 0 && !r->Ok_0.more && finished(
                        *old(ledger),
                        *final(ledger),
                        set@,
                        first_day(data, day),
                    )
                } else {
                    r is Err && r->Err_0 is Protocol && *final(ledger) == *old(ledger)
                }
            } else {
                match page.list_records {
                    None => r is Err && r->Err_0 == HarvestError::Decode(DecodeError::MissingList)
                        && *final(ledger) == *old(ledger),
                    Some(list) => {
                        &&& (r is Ok <==> forall|k: int|
                            0 <= k < list.records@.len() ==> absorbable(
                                #[trigger] list.records@[k],
                                stored@[k],
                            ))
                        &&& r is Err ==> *final(ledger) == *old(ledger)
                        &&& r is Ok ==> {
                            let out = r->Ok_0;
                            &&& out.records@.len() == list.records@.len()
                            &&& forall|k: int|
                                0 <= k < list.records@.len() ==> absorbed(
                                    #[trigger] out.records@[k],
                                    list.records@[k],
                                    stored@[k],
                                    day,
                                )
                            &&& out.more == list.resumption_token is Some
                            &&& ledger_after_page(
                                *old(ledger),
                                *final(ledger),
                                set@,
                                day,
                                first_day(data, day),
                                data,
                                opt_view(list.resumption_token),
                            )
                        }
                    },
                }
            },
        },
{
    let ghost before = *ledger;
    let day: String = match response_day(page.response_date.as_str()) {
        Ok(d) => d,
        Err(e) => {
            return Err(HarvestError::Decode(e));
        },
    };
    let first: String = match &data.response_date {
        Some(d) => d.clone(),
        None => day.clone(),
    };
    if page.errors.len() > 0 {
        if any_code(&page.errors, "badResumptionToken") {
            Continuation::clear_resumption_data(ledger, set);
            return Err(HarvestError::BadResumptionToken);
        }
        if any_code(&page.errors, "noRecordsMatch") {
            Continuation::update_last_update(ledger, set, first.as_str());
            return Ok(PageOutcome { records: Vec::new(), more: false });
        }
        return Err(HarvestError::Protocol(page.errors));
    }
    let list = match page.list_records {
        Some(l) => l,
        None => {
            return Err(HarvestError::Decode(DecodeError::MissingList));
        },
    };
    let records = match absorb_records(list.records, stored, day.as_str()) {
        Ok(rs) => rs,
        Err(e) => {
            return Err(e);
        },
    };
    Continuation::reset_last_update(ledger, day.as_str());
    let ghost mid = *ledger;
    match list.resumption_token {
        Some(t) => {
            let mut req = String::from_str("verb=ListRecords&resumptionToken=");
            req.append(t.as_str());
            let ghost first_g = first@;
            let next = ResumptionData {
                request_number: data.request_number + 1,
                resumption_request: req,
                response_date: Some(first),
            };
            let ghost next_g = next;
            assert(resumed_with(next_g, data, t@, first_g));
            Continuation::update_resumption_data(ledger, set, next);
            proof {
                lemma_after_page_resumed(before, mid, *ledger, set@, day@, first_g, data, t@, next_g);
            }
            Ok(PageOutcome { records, more: true })
        },
        None => {
            Continuation::update_last_update(ledger, set, first.as_str());
            proof {
                lemma_after_page_finished(before, mid, *ledger, set@, day@, first@, data);
            }
            Ok(PageOutcome { records, more: false })
        },
    }
}

/// Absorbs a page of the partition listing: every listed partition whose
/// name carries a category is added with it. A listing that reports errors,
/// has no list, or continues on another page changes nothing and fails.
pub fn absorb_set_list(ledger: &mut Ledger, page: RawSetList) -> (r: Result<(), HarvestError>)
    requires
        old(ledger).wf(),
    ensures
        final(ledger).wf(),
        page.errors@.len() > 0 ==> r is Err && r->Err_0 is Protocol && *final(ledger) == *old(ledger),
        page.errors@.len() == 0 && page.sets is None ==> r is Err && r->Err_0 == HarvestError::Decode(
            DecodeError::MissingList,
        ) && *final(ledger) == *old(ledger),
        page.errors@.len() == 0 && page.sets is Some && page.has_resumption_token ==> r is Err
            && r->Err_0 == HarvestError::MultiPageSetList && *final(ledger) == *old(ledger),
        page.errors@.len() == 0 && page.sets is Some && !page.has_resumption_token ==> {
            let names = page.sets->Some_0@;
            &&& r is Ok
            &&& final(ledger).partitions@.len() >= old(ledger).partitions@.len()
            &&& forall|i: int|
                0 <= i < old(ledger).partitions@.len() ==> final(ledger).partitions@[i]
                    == old(ledger).partitions@[i]
            &&& forall|i: int|
                old(ledger).partitions@.len() <= i < final(ledger).partitions@.len() ==> {
                    let p = #[trigger] final(ledger).partitions@[i];
                    &&& exists|k: int| 0 <= k < names.len() && names[k] == p.name
                    &&& opt_view(p.category) == category_spec(p.name@)
                    &&& p.category is Some
                    &&& p.continuation.last_update is None
                    &&& p.continuation.resumption_data is None
                }
            &&& forall|k: int|
                0 <= k < names.len() && category_spec(names[k]@) is Some
                    ==> final(ledger).position(#[trigger] names[k]@) is Some
        },
{
    if page.errors.len() > 0 {
        return Err(HarvestError::Protocol(page.errors));
    }
    let sets = match page.sets {
        Some(s) => s,
        None => {
            return Err(HarvestError::Decode(DecodeError::MissingList));
        },
    };
    if page.has_resumption_token {
        return Err(HarvestError::MultiPageSetList);
    }
    ledger.add_listed_partitions(sets);
    Ok(())
}

} // verus!
