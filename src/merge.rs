//! The record merge engine: an incoming record and the stored record with the
//! same identifier become the record to persist. Upstream is authoritative for
//! every field but the provenance of versions.
use vstd::prelude::*;

use crate::ident::ArxivId;
use crate::record::{
    record_check, version_numbers, ArticleMetadata, RecordError, Timestamp, Version,
};
use crate::text::{lemma_lex_min, lemma_lex_min_assoc, lex_le, lex_min, str_lt};

verus! {

/// A version as a page reports it, before provenance is attached.
pub struct IncomingVersion {
    pub number: u32,
    pub date: Timestamp,
    pub size: String,
    pub source_type: Option<String>,
}

/// A record as a page reports it.
pub struct IncomingRecord {
    pub id: ArxivId,
    pub submitter: String,
    pub versions: Vec<IncomingVersion>,
    pub title: String,
    pub authors: String,
    pub categories: Vec<String>,
    pub comments: Option<String>,
    pub proxy: Option<String>,
    pub report_no: Option<String>,
    pub acm_classes: Option<String>,
    pub msc_classes: Option<String>,
    pub journal_ref: Option<String>,
    pub doi: Option<String>,
    pub license: Option<String>,
    pub abstract_: String,
    pub last_change: Option<String>,
    pub sets: Option<Vec<String>>,
}

/// Why a merge was refused.
#[derive(Debug, Clone, Copy, PartialEq, Eq)]
pub enum MergeError {
    /// The stored record has more versions than the incoming one.
    VersionRegression,
    /// The merged record breaks a record invariant.
    Invalid(RecordError),
}

/// The first-encounter dates of a list of versions.
pub open spec fn encounters(vs: Seq<Version>) -> Seq<Seq<char>> {
    vs.map_values(|v: Version| v.first_encounter@)
}

pub open spec fn incoming_numbers(vs: Seq<IncomingVersion>) -> Seq<u32> {
    vs.map_values(|v: IncomingVersion| v.number)
}

/// The first-encounter dates after a page dated `date` reports `n` versions,
/// where `old` are the stored ones: a version seen before keeps the earlier of
/// its date and `date`, a new one gets `date`.
pub open spec fn merge_encounters(old: Seq<Seq<char>>, n: nat, date: Seq<char>) -> Seq<Seq<char>> {
    Seq::new(n, |i: int| if i < old.len() { lex_min(old[i], date) } else { date })
}

/// The stored first-encounter dates, none where nothing is stored.
pub open spec fn stored_encounters(old: Option<Seq<Version>>) -> Seq<Seq<char>> {
    match old {
        Some(vs) => encounters(vs),
        None => Seq::empty(),
    }
}

/// `v` carries the upstream fields of `w` unchanged.
pub open spec fn carries(v: Version, w: IncomingVersion) -> bool {
    &&& v.number == w.number
    &&& v.date == w.date
    &&& v.size == w.size
    &&& v.source_type == w.source_type
}

/// Attaches provenance to incoming versions; fails when the stored record has
/// more versions than the incoming one.
pub fn merge_versions(old: Option<&Vec<Version>>, incoming: Vec<IncomingVersion>, date: &str) -> (r:
    Result<Vec<Version>, MergeError>)
    ensures
        ({
            let old_e = stored_encounters(
                match old {
                    Some(v) => Some(v@),
                    None => None,
                },
            );
            &&& r is Err <==> old_e.len() > incoming@.len()
            &&& r is Err ==> r->Err_0 == MergeError::VersionRegression
            &&& r is Ok ==> {
                let vs = r->Ok_0@;
                &&& vs.len() == incoming@.len()
                &&& encounters(vs) == merge_encounters(old_e, incoming@.len(), date@)
                &&& forall|i: int| 0 <= i < vs.len() ==> carries(#[trigger] vs[i], incoming@[i])
            }
        }),
{
    let ghost old_e = stored_encounters(
        match old {
            Some(v) => Some(v@),
            None => None,
        },
    );
    let n_old: usize = match old {
        Some(v) => v.len(),
        None => 0,
    };
    assert(old_e.len() == n_old);
    if n_old > incoming.len() {
        return Err(MergeError::VersionRegression);
    }
    let ghost inc = incoming@;
    let ghost n = incoming@.len();
    let mut rest = incoming;
    let mut out: Vec<Version> = Vec::new();
    while rest.len() > 0
        invariant
            n == inc.len(),
            out@.len() + rest@.len() == n,
            rest@ == inc.subrange(out@.len() as int, n as int),
            n_old == old_e.len(),
            old_e == stored_encounters(
                match old {
                    Some(v) => Some(v@),
                    None => None,
                },
            ),
            forall|i: int| 0 <= i < out@.len() ==> carries(#[trigger] out@[i], inc[i]),
            forall|i: int|
                0 <= i < out@.len() ==> (#[trigger] out@[i]).first_encounter@ == (if i < old_e.len() {
                    lex_min(old_e[i], date@)
                } else {
                    date@
                }),
        decreases rest@.len(),
    {
        let i = out.len();
        let w = rest.remove(0);
        assert(w == inc[i as int]);
        let first_encounter = match old {
            Some(v) => {
                if i < v.len() {
                    let prev: &String = &v[i].first_encounter;
                    assert(prev@ == old_e[i as int]);
                    if str_lt(date, prev.as_str()) {
                        String::from_str(date)
                    } else {
                        prev.clone()
                    }
                } else {
                    String::from_str(date)
                }
            },
            None => String::from_str(date),
        };
        out.push(
            Version {
                number: w.number,
                date: w.date,
                size: w.size,
                source_type: w.source_type,
                first_encounter,
            },
        );
        assert(rest@ =~= inc.subrange(out@.len() as int, n as int));
    }
    assert(encounters(out@) =~= merge_encounters(old_e, n, date@));
    Ok(out)
}

/// Builds the record to persist from an incoming record and the stored one
/// (if any), then checks the record invariants.
pub fn merge_record(incoming: IncomingRecord, stored: Option<&ArticleMetadata>, date: &str) -> (r:
    Result<ArticleMetadata, MergeError>)
    ensures
        ({
            let old_e = stored_encounters(
                match stored {
                    Some(a) => Some(a.versions@),
                    None => None,
                },
            );
            let check = record_check(
                incoming_numbers(incoming.versions@),
                incoming.categories@.len(),
            );
            &&& (r == Err::<ArticleMetadata, MergeError>(MergeError::VersionRegression))
                <==> old_e.len() > incoming.versions@.len()
            &&& old_e.len() <= incoming.versions@.len() ==> (r is Err <==> check is Err)
            &&& old_e.len() <= incoming.versions@.len() && check is Err ==> r == Err::<
                ArticleMetadata,
                MergeError,
            >(MergeError::Invalid(check->Err_0))
            &&& r is Ok ==> {
                let m = r->Ok_0;
                &&& m.wf()
                &&& m.id == incoming.id
                &&& m.submitter == incoming.submitter
                &&& m.title == incoming.title
                &&& m.authors == incoming.authors
                &&& m.categories == incoming.categories
                &&& m.comments == incoming.comments
                &&& m.proxy == incoming.proxy
                &&& m.report_no == incoming.report_no
                &&& m.acm_classes == incoming.acm_classes
                &&& m.msc_classes == incoming.msc_classes
                &&& m.journal_ref == incoming.journal_ref
                &&& m.doi == incoming.doi
                &&& m.license == incoming.license
                &&& m.abstract_ == incoming.abstract_
                &&& m.last_change == incoming.last_change
                &&& m.sets == incoming.sets
                &&& m.versions@.len() == incoming.versions@.len()
                &&& encounters(m.versions@) == merge_encounters(
                    old_e,
                    incoming.versions@.len(),
                    date@,
                )
                &&& forall|i: int|
                    0 <= i < m.versions@.len() ==> carries(
                        #[trigger] m.versions@[i],
                        incoming.versions@[i],
                    )
            }
        }),
{
    let ghost inc_numbers = incoming_numbers(incoming.versions@);
    let versions = match merge_versions(
        match stored {
            Some(a) => Some(&a.versions),
            None => None,
        },
        incoming.versions,
        date,
    ) {
        Ok(vs) => vs,
        Err(e) => {
            return Err(e);
        },
    };
    assert(version_numbers(versions@) =~= inc_numbers);
    let m = ArticleMetadata {
        id: incoming.id,
        submitter: incoming.submitter,
        versions,
        title: incoming.title,
        authors: incoming.authors,
        categories: incoming.categories,
        comments: incoming.comments,
        proxy: incoming.proxy,
        report_no: incoming.report_no,
        acm_classes: incoming.acm_classes,
        msc_classes: incoming.msc_classes,
        journal_ref: incoming.journal_ref,
        doi: incoming.doi,
        license: incoming.license,
        abstract_: incoming.abstract_,
        last_change: incoming.last_change,
        sets: incoming.sets,
    };
    match m.validate() {
        Ok(()) => Ok(m),
        Err(e) => Err(MergeError::Invalid(e)),
    }
}

/// Re-applying a page that was already absorbed changes nothing: merging the
/// same version count at the same date into the result of a merge gives that
/// result again, so no first-encounter date moves later.
pub proof fn lemma_reapply_idempotent(old: Seq<Seq<char>>, n: nat, date: Seq<char>)
    requires
        old.len() <= n,
    ensures
        merge_encounters(merge_encounters(old, n, date), n, date) == merge_encounters(old, n, date),
        forall|i: int|
            0 <= i < n ==> lex_le(
                #[trigger] merge_encounters(merge_encounters(old, n, date), n, date)[i],
                merge_encounters(old, n, date)[i],
            ),
{
    let once = merge_encounters(old, n, date);
    let twice = merge_encounters(once, n, date);
    assert forall|i: int| 0 <= i < n implies #[trigger] twice[i] == once[i] by {
        lemma_lex_min(once[i], date);
        if i < old.len() {
            lemma_lex_min_assoc(old[i], date, date);
            lemma_lex_min(date, date);
        }
    }
    assert(twice =~= once);
}

/// A merge never moves a stored first-encounter date later, and an import
/// does not either.
pub proof fn lemma_first_encounter_never_later(old: Seq<Seq<char>>, imported: Seq<Seq<char>>, n: nat, date: Seq<char>)
    requires
        old.len() <= n,
        old.len() <= imported.len(),
    ensures
        forall|i: int| 0 <= i < old.len() ==> lex_le(#[trigger] merge_encounters(old, n, date)[i], old[i]),
        forall|i: int| 0 <= i < old.len() ==> lex_le(#[trigger] import_encounters(imported, old)[i], old[i]),
{
    assert forall|i: int| 0 <= i < old.len() implies lex_le(#[trigger] merge_encounters(old, n, date)[i], old[i]) by {
        lemma_lex_min(old[i], date);
    }
    assert forall|i: int| 0 <= i < old.len() implies lex_le(#[trigger] import_encounters(imported, old)[i], old[i]) by {
        lemma_lex_min(imported[i], old[i]);
    }
}

/// Importing a record's own first-encounter dates over it changes none of
/// them.
pub proof fn lemma_reimport_encounters(e: Seq<Seq<char>>)
    ensures
        import_encounters(e, e) == e,
{
    assert forall|i: int| 0 <= i < e.len() implies #[trigger] import_encounters(e, e)[i] == e[i] by {
        lemma_lex_min(e[i], e[i]);
    }
    assert(import_encounters(e, e) =~= e);
}

/// The first-encounter dates after absorbing pages dated `dates`, the page at
/// position `k` reporting `counts[k]` versions, starting from no stored record.
pub open spec fn encounters_after(dates: Seq<Seq<char>>, counts: Seq<nat>) -> Seq<Seq<char>>
    decreases dates.len(),
{
    if dates.len() == 0 || counts.len() == 0 {
        Seq::empty()
    } else {
        merge_encounters(
            encounters_after(dates.drop_last(), counts.drop_last()),
            counts.last(),
            dates.last(),
        )
    }
}

/// The earliest of a non-empty list of dates.
pub open spec fn earliest(dates: Seq<Seq<char>>) -> Seq<char>
    decreases dates.len(),
{
    if dates.len() <= 1 {
        dates[0]
    } else {
        lex_min(earliest(dates.drop_last()), dates.last())
    }
}

/// A version index reported by every one of a run of pages ends up with the
/// earliest of their response dates as its first encounter. The version
/// counts never decrease, as every merge in the run succeeded.
pub proof fn lemma_first_encounter_is_earliest(dates: Seq<Seq<char>>, counts: Seq<nat>, i: int)
    requires
        dates.len() == counts.len(),
        dates.len() >= 1,
        forall|k: int| 0 <= k < counts.len() ==> i < #[trigger] counts[k],
        forall|k: int, j: int| 0 <= k <= j < counts.len() ==> counts[k] <= counts[j],
        0 <= i,
    ensures
        encounters_after(dates, counts).len() == counts.last(),
        encounters_after(dates, counts)[i] == earliest(dates),
    decreases dates.len(),
{
    if dates.len() == 1 {
        assert(dates.drop_last().len() == 0);
        assert(encounters_after(dates.drop_last(), counts.drop_last()) == Seq::<Seq<char>>::empty());
    } else {
        let ds = dates.drop_last();
        let cs = counts.drop_last();
        assert forall|k: int| 0 <= k < cs.len() implies i < #[trigger] cs[k] by {
            assert(cs[k] == counts[k]);
        }
        assert forall|k: int, j: int| 0 <= k <= j < cs.len() implies cs[k] <= cs[j] by {
            assert(cs[k] == counts[k] && cs[j] == counts[j]);
        }
        lemma_first_encounter_is_earliest(ds, cs, i);
        assert(cs.last() == counts[counts.len() - 2]);
        assert(counts[counts.len() - 2] <= counts.last());
    }
}

/// The first-encounter dates of an imported record merged with the stored
/// ones: at each position both have, the earlier of the two.
pub open spec fn import_encounters(imported: Seq<Seq<char>>, stored: Seq<Seq<char>>) -> Seq<Seq<char>> {
    Seq::new(
        imported.len(),
        |i: int| if i < stored.len() { lex_min(imported[i], stored[i]) } else { imported[i] },
    )
}

/// Brings an imported record in through the merge rule: it may not have fewer
/// versions than the stored one, no first-encounter date moves later than the
/// stored one, and the result must be a valid record.
pub fn import_record(imported: ArticleMetadata, stored: Option<&ArticleMetadata>) -> (r: Result<
    ArticleMetadata,
    MergeError,
>)
    ensures
        ({
            let old_e = stored_encounters(
                match stored {
                    Some(a) => Some(a.versions@),
                    None => None,
                },
            );
            let check = record_check(version_numbers(imported.versions@), imported.categories@.len());
            &&& old_e.len() > imported.versions@.len() ==> r == Err::<ArticleMetadata, MergeError>(
                MergeError::VersionRegression,
            )
            &&& old_e.len() <= imported.versions@.len() ==> match check {
                Err(e) => r == Err::<ArticleMetadata, MergeError>(MergeError::Invalid(e)),
                Ok(_) => r is Ok,
            }
            &&& r is Ok ==> {
                let m = r->Ok_0;
                &&& m.wf()
                &&& m.id == imported.id
                &&& m.submitter == imported.submitter
                &&& m.title == imported.title
                &&& m.authors == imported.authors
                &&& m.categories == imported.categories
                &&& m.comments == imported.comments
                &&& m.proxy == imported.proxy
                &&& m.report_no == imported.report_no
                &&& m.acm_classes == imported.acm_classes
                &&& m.msc_classes == imported.msc_classes
                &&& m.journal_ref == imported.journal_ref
                &&& m.doi == imported.doi
                &&& m.license == imported.license
                &&& m.abstract_ == imported.abstract_
                &&& m.last_change == imported.last_change
                &&& m.sets == imported.sets
                &&& m.versions@.len() == imported.versions@.len()
                &&& encounters(m.versions@) == import_encounters(encounters(imported.versions@), old_e)
                &&& forall|i: int|
                    0 <= i < m.versions@.len() ==> {
                        let v = #[trigger] m.versions@[i];
                        let w = imported.versions@[i];
                        v.number == w.number && v.date == w.date && v.size == w.size
                            && v.source_type == w.source_type
                    }
            }
        }),
{
    let ghost old_e = stored_encounters(
        match stored {
            Some(a) => Some(a.versions@),
            None => None,
        },
    );
    let n_old: usize = match stored {
        Some(a) => a.versions.len(),
        None => 0,
    };
    if n_old > imported.versions.len() {
        return Err(MergeError::VersionRegression);
    }
    let mut m = imported;
    let ghost orig = m.versions@;
    let mut rest: Vec<Version> = Vec::new();
    core::mem::swap(&mut rest, &mut m.versions);
    let mut out: Vec<Version> = Vec::new();
    while rest.len() > 0
        invariant
            out@.len() + rest@.len() == orig.len(),
            rest@ == orig.subrange(out@.len() as int, orig.len() as int),
            n_old == old_e.len(),
            n_old <= orig.len(),
            old_e == stored_encounters(
                match stored {
                    Some(a) => Some(a.versions@),
                    None => None,
                },
            ),
            forall|i: int|
                0 <= i < out@.len() ==> {
                    let v = #[trigger] out@[i];
                    let w = orig[i];
                    &&& v.number == w.number
                    &&& v.date == w.date
                    &&& v.size == w.size
                    &&& v.source_type == w.source_type
                    &&& v.first_encounter@ == if i < old_e.len() {
                        lex_min(w.first_encounter@, old_e[i])
                    } else {
                        w.first_encounter@
                    }
                },
        decreases rest@.len(),
    {
        let i = out.len();
        let mut v = rest.remove(0);
        assert(v == orig[i as int]);
        match stored {
            Some(a) => {
                if i < a.versions.len() {
                    let prev = &a.versions[i].first_encounter;
                    assert(prev@ == old_e[i as int]);
                    if str_lt(prev.as_str(), v.first_encounter.as_str()) {
                        v.first_encounter = prev.clone();
                    }
                }
            },
            None => {},
        }
        out.push(v);
        assert(rest@ =~= orig.subrange(out@.len() as int, orig.len() as int));
    }
    m.versions = out;
    assert(encounters(m.versions@) =~= import_encounters(encounters(orig), old_e));
    assert(version_numbers(m.versions@) =~= version_numbers(orig));
    match m.validate() {
        Ok(()) => Ok(m),
        Err(e) => Err(MergeError::Invalid(e)),
    }
}

} // verus!
