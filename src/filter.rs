//! Conditions that select catalog records, and what a record's user-side
//! state holds.
use vstd::prelude::*;

use crate::calendar::{utc_day, utc_day_text};
use crate::decode::{split_on_spaces, split_spaces};
use crate::ident::{valid_id, ArxivId};
use crate::tag::{valid_tag, InvalidTagName};
use crate::text::{parse_u32, parsed_u32};
use crate::record::ArticleMetadata;
use crate::tag::TagName;
use crate::text::{contains_text, find_text, lex_le, str_eq, str_lt};

verus! {

/// What the user has done with a record.
pub struct ArticleState {
    /// When the user last saw the record (a sequence number).
    pub last_seen_at: usize,
    /// The last version the user saw; 0 if none.
    pub last_seen_version: u32,
    pub seen_journal: bool,
    pub seen_doi: bool,
    /// The record's tags, without repetition.
    pub tags: Vec<TagName>,
    pub notes: Option<String>,
}

impl ArticleState {
    /// The state of a record the user has never seen.
    pub fn new() -> (r: ArticleState)
        ensures
            r.last_seen_at == 0,
            r.last_seen_version == 0,
            !r.seen_journal,
            !r.seen_doi,
            r.tags@.len() == 0,
            r.notes is None,
    {
        ArticleState {
            last_seen_at: 0,
            last_seen_version: 0,
            seen_journal: false,
            seen_doi: false,
            tags: Vec::new(),
            notes: None,
        }
    }
}

/// One line of the list of seen records: `<id> <version> [<journal> [<doi>]]`,
/// where the flags are `true` or anything else.
pub struct SeenEntry {
    pub id: ArxivId,
    pub version: u32,
    /// The journal reference had been seen.
    pub journal: bool,
    /// The DOI had been seen.
    pub doi: bool,
}

/// Why a line of the list of seen records was refused.
#[derive(Debug, Clone, Copy, PartialEq, Eq)]
pub enum SeenError {
    InvalidId,
    MissingVersion,
    InvalidVersion,
    TooManyColumns,
}

/// What a line of the list of seen records holds, column by column.
pub open spec fn seen_line(line: Seq<char>) -> Result<(Seq<char>, u32, bool, bool), SeenError> {
    let cols = split_spaces(line);
    if !valid_id(cols[0]) {
        Err(SeenError::InvalidId)
    } else if cols.len() < 2 {
        Err(SeenError::MissingVersion)
    } else if parsed_u32(cols[1]) is None {
        Err(SeenError::InvalidVersion)
    } else if cols.len() > 4 {
        Err(SeenError::TooManyColumns)
    } else {
        Ok(
            (
                cols[0],
                parsed_u32(cols[1])->Some_0,
                cols.len() > 2 && cols[2] == "true"@,
                cols.len() > 3 && cols[3] == "true"@,
            ),
        )
    }
}

/// Reads a line of the list of seen records.
pub fn parse_seen_line(line: &str) -> (r: Result<SeenEntry, SeenError>)
    ensures
        match seen_line(line@) {
            Ok((id, v, j, d)) => r is Ok && r->Ok_0.id@ == id && r->Ok_0.version == v
                && r->Ok_0.journal == j && r->Ok_0.doi == d,
            Err(e) => r is Err && r->Err_0 == e,
        },
{
    let cols = split_on_spaces(line);
    let ghost cv = cols@.map_values(|x: String| x@);
    proof {
        crate::decode::lemma_split_nonempty(line@);
    }
    assert(cols@.len() == cv.len());
    assert(cols@[0]@ == cv[0]);
    let id = match ArxivId::parse(cols[0].as_str()) {
        Ok(id) => id,
        Err(_) => {
            return Err(SeenError::InvalidId);
        },
    };
    if cols.len() < 2 {
        return Err(SeenError::MissingVersion);
    }
    assert(cols@[1]@ == cv[1]);
    let version = match parse_u32(cols[1].as_str()) {
        Some(v) => v,
        None => {
            return Err(SeenError::InvalidVersion);
        },
    };
    if cols.len() > 4 {
        return Err(SeenError::TooManyColumns);
    }
    let journal = if cols.len() > 2 {
        assert(cols@[2]@ == cv[2]);
        crate::text::str_eq(cols[2].as_str(), "true")
    } else {
        false
    };
    let doi = if cols.len() > 3 {
        assert(cols@[3]@ == cv[3]);
        crate::text::str_eq(cols[3].as_str(), "true")
    } else {
        false
    };
    Ok(SeenEntry { id, version, journal, doi })
}

impl ArticleState {
    /// Takes in a line of the list of seen records, at line number
    /// `line_number`: the last sighting moves there, the version seen is the
    /// larger one, and flags once set stay set.
    pub fn note_seen(&mut self, line_number: usize, e: &SeenEntry)
        ensures
            final(self).last_seen_at == line_number,
            final(self).last_seen_version == if old(self).last_seen_version < e.version {
                e.version
            } else {
                old(self).last_seen_version
            },
            final(self).seen_journal == (old(self).seen_journal || e.journal),
            final(self).seen_doi == (old(self).seen_doi || e.doi),
            final(self).tags == old(self).tags,
            final(self).notes == old(self).notes,
    {
        self.last_seen_at = line_number;
        if self.last_seen_version < e.version {
            self.last_seen_version = e.version;
        }
        if e.journal {
            self.seen_journal = true;
        }
        if e.doi {
            self.seen_doi = true;
        }
    }

    /// Reads the lines of a tags file: one tag name per line, repetitions
    /// dropped. Fails when a line is not a tag name.
    pub fn tags_from_lines(lines: &Vec<String>) -> (r: Result<Vec<TagName>, InvalidTagName>)
        ensures
            r is Ok <==> forall|i: int| 0 <= i < lines@.len() ==> valid_tag(#[trigger] lines@[i]@),
            r is Ok ==> tag_names(r->Ok_0@) == dedup(lines@.map_values(|l: String| l@)),
    {
        let ghost views = lines@.map_values(|l: String| l@);
        let mut out: Vec<TagName> = Vec::new();
        let mut i: usize = 0;
        assert(views.subrange(0, 0) =~= Seq::<Seq<char>>::empty());
        assert(tag_names(out@) =~= Seq::<Seq<char>>::empty());
        while i < lines.len()
            invariant
                views == lines@.map_values(|l: String| l@),
                i <= lines@.len(),
                forall|j: int| 0 <= j < i ==> valid_tag(#[trigger] lines@[j]@),
                tag_names(out@) == dedup(views.subrange(0, i as int)),
            decreases lines@.len() - i,
        {
            let tag = match TagName::parse(lines[i].as_str()) {
                Ok(t) => t,
                Err(e) => {
                    return Err(e);
                },
            };
            let ghost names = tag_names(out@);
            let mut k: usize = 0;
            let mut seen = false;
            while k < out.len()
                invariant
                    names == tag_names(out@),
                    k <= out@.len(),
                    seen == exists|m: int| 0 <= m < k && names[m] == tag.0@,
                decreases out@.len() - k,
            {
                if crate::text::str_eq(out[k].0.as_str(), tag.0.as_str()) {
                    seen = true;
                }
                proof {
                    if !seen {
                        assert forall|m: int| 0 <= m < k + 1 implies names[m] != tag.0@ by {
                            if m == k {
                                assert(names[m] == out@[m].0@);
                            }
                        }
                    } else {
                        if names[k as int] == tag.0@ {
                            assert(0 <= k < k + 1 && names[k as int] == tag.0@);
                        }
                    }
                }
                k = k + 1;
            }
            assert(views.subrange(0, i + 1).drop_last() =~= views.subrange(0, i as int));
            assert(views.subrange(0, i + 1).last() == tag.0@);
            assert(seen == names.contains(tag.0@));
            if !seen {
                out.push(tag);
                assert(tag_names(out@) =~= names.push(views[i as int]));
            }
            i = i + 1;
        }
        assert(views.subrange(0, i as int) =~= views);
        Ok(out)
    }
}

/// The names of a list of tags.
pub open spec fn tag_names(ts: Seq<TagName>) -> Seq<Seq<char>> {
    ts.map_values(|t: TagName| t.0@)
}

/// `s` with every element that appeared before dropped.
pub open spec fn dedup(s: Seq<Seq<char>>) -> Seq<Seq<char>>
    decreases s.len(),
{
    if s.len() == 0 {
        Seq::empty()
    } else if dedup(s.drop_last()).contains(s.last()) {
        dedup(s.drop_last())
    } else {
        dedup(s.drop_last()).push(s.last())
    }
}

/// A record with the user's state.
pub struct Article {
    pub metadata: ArticleMetadata,
    pub state: ArticleState,
}

/// A condition on records.
#[derive(Debug, PartialEq, Eq)]
pub enum Filter {
    PrimaryCategoryIs(String),
    InCategory(String),
    FirstVersionEncounteredAfter(String),
    FirstVersionSubmittedAfter(String),
    Title(String),
    Author(String),
    ACMClass(String),
    MSCClass(String),
    Abstract(String),
    Comments(String),
    Bookmarked,
    Seen,
    Tag(TagName),
    Notes(String),
    Any(String),
    Not(Box<Filter>),
    And(Box<Filter>, Box<Filter>),
    Or(Box<Filter>, Box<Filter>),
    Id(String),
    True,
    False,
}

/// An optional text that contains `word`.
pub open spec fn opt_contains(t: Option<String>, word: Seq<char>, fold: bool) -> bool {
    t is Some && contains_text(t->Some_0@, word, fold)
}

pub open spec fn in_categories(a: Article, name: Seq<char>) -> bool {
    exists|i: int| 0 <= i < a.metadata.categories@.len() && (#[trigger] a.metadata.categories@[i])@ == name
}

pub open spec fn has_tag(a: Article, tag: Seq<char>) -> bool {
    exists|i: int| 0 <= i < a.state.tags@.len() && (#[trigger] a.state.tags@[i]).0@ == tag
}

/// Whether `f` selects `a`. Titles, abstracts, comments and notes are
/// searched ignoring ASCII case; authors and classes are not.
pub open spec fn selects(f: Filter, a: Article) -> bool
    decreases f,
{
    let m = a.metadata;
    match f {
        Filter::PrimaryCategoryIs(name) => m.categories@[0]@ == name@,
        Filter::InCategory(name) => in_categories(a, name@),
        Filter::FirstVersionEncounteredAfter(date) => lex_le(date@, m.versions@[0].first_encounter@),
        Filter::FirstVersionSubmittedAfter(date) => match utc_day_text(m.versions@[0].date.utc_seconds) {
            Some(day) => lex_le(date@, day),
            None => false,
        },
        Filter::Title(w) => contains_text(m.title@, w@, true),
        Filter::Author(w) => contains_text(m.authors@, w@, false),
        Filter::ACMClass(p) => opt_contains(m.acm_classes, p@, false),
        Filter::MSCClass(p) => opt_contains(m.msc_classes, p@, false),
        Filter::Abstract(w) => contains_text(m.abstract_@, w@, true),
        Filter::Comments(w) => opt_contains(m.comments, w@, true),
        Filter::Bookmarked => a.state.tags@.len() > 0,
        Filter::Seen => a.state.last_seen_version > 0,
        Filter::Tag(t) => has_tag(a, t.0@),
        Filter::Notes(p) => opt_contains(a.state.notes, p@, true),
        Filter::Any(w) => {
            ||| in_categories(a, w@)
            ||| contains_text(m.title@, w@, true)
            ||| contains_text(m.authors@, w@, false)
            ||| opt_contains(m.acm_classes, w@, false)
            ||| opt_contains(m.msc_classes, w@, false)
            ||| contains_text(m.abstract_@, w@, true)
            ||| opt_contains(m.comments, w@, true)
            ||| opt_contains(a.state.notes, w@, true)
        },
        Filter::Not(g) => !selects(*g, a),
        Filter::And(g, h) => selects(*g, a) && selects(*h, a),
        Filter::Or(g, h) => selects(*g, a) || selects(*h, a),
        Filter::Id(id) => m.id@ == id@,
        Filter::True => true,
        Filter::False => false,
    }
}

fn opt_find(t: &Option<String>, word: &str, fold: bool) -> (r: bool)
    ensures
        r == opt_contains(*t, word@, fold),
{
    match t {
        Some(s) => find_text(s.as_str(), word, fold),
        None => false,
    }
}

fn find_category(a: &Article, name: &str) -> (r: bool)
    ensures
        r == in_categories(*a, name@),
{
    let cs = &a.metadata.categories;
    let mut i: usize = 0;
    while i < cs.len()
        invariant
            cs == &a.metadata.categories,
            i <= cs@.len(),
            forall|j: int| 0 <= j < i ==> (#[trigger] cs@[j])@ != name@,
        decreases cs@.len() - i,
    {
        if str_eq(cs[i].as_str(), name) {
            return true;
        }
        i = i + 1;
    }
    false
}

fn find_tag(a: &Article, tag: &TagName) -> (r: bool)
    ensures
        r == has_tag(*a, tag.0@),
{
    let ts = &a.state.tags;
    let mut i: usize = 0;
    while i < ts.len()
        invariant
            ts == &a.state.tags,
            i <= ts@.len(),
            forall|j: int| 0 <= j < i ==> (#[trigger] ts@[j]).0@ != tag.0@,
        decreases ts@.len() - i,
    {
        if str_eq(ts[i].0.as_str(), tag.0.as_str()) {
            return true;
        }
        i = i + 1;
    }
    false
}

impl Article {
    /// A record has at least one category and one version.
    pub open spec fn wf(&self) -> bool {
        self.metadata.categories@.len() > 0 && self.metadata.versions@.len() > 0
    }
}

impl Filter {
    /// Whether this condition selects `article`.
    pub fn matches(&self, article: &Article) -> (r: bool)
        requires
            article.wf(),
        ensures
            r == selects(*self, *article),
        decreases self,
    {
        let m = &article.metadata;
        match self {
            Filter::PrimaryCategoryIs(name) => str_eq(m.categories[0].as_str(), name.as_str()),
            Filter::InCategory(name) => find_category(article, name.as_str()),
            Filter::FirstVersionEncounteredAfter(date) => {
                proof {
                    crate::text::lemma_lex_total(date@, m.versions@[0].first_encounter@);
                    crate::text::lemma_lex_asymmetric(date@, m.versions@[0].first_encounter@);
                    crate::text::lemma_lex_irreflexive(date@);
                }
                !str_lt(m.versions[0].first_encounter.as_str(), date.as_str())
            },
            Filter::FirstVersionSubmittedAfter(date) => match utc_day(m.versions[0].date.utc_seconds) {
                Some(day) => {
                    proof {
                        crate::text::lemma_lex_total(date@, day@);
                        crate::text::lemma_lex_asymmetric(date@, day@);
                        crate::text::lemma_lex_irreflexive(date@);
                    }
                    !str_lt(day.as_str(), date.as_str())
                },
                None => false,
            },
            Filter::Title(w) => find_text(m.title.as_str(), w.as_str(), true),
            Filter::Author(w) => find_text(m.authors.as_str(), w.as_str(), false),
            Filter::ACMClass(p) => opt_find(&m.acm_classes, p.as_str(), false),
            Filter::MSCClass(p) => opt_find(&m.msc_classes, p.as_str(), false),
            Filter::Abstract(w) => find_text(m.abstract_.as_str(), w.as_str(), true),
            Filter::Comments(w) => opt_find(&m.comments, w.as_str(), true),
            Filter::Bookmarked => article.state.tags.len() > 0,
            Filter::Seen => article.state.last_seen_version > 0,
            Filter::Tag(t) => find_tag(article, t),
            Filter::Notes(p) => opt_find(&article.state.notes, p.as_str(), true),
            Filter::Any(w) => {
                let w = w.as_str();
                find_category(article, w) || find_text(m.title.as_str(), w, true) || find_text(
                    m.authors.as_str(),
                    w,
                    false,
                ) || opt_find(&m.acm_classes, w, false) || opt_find(&m.msc_classes, w, false)
                    || find_text(m.abstract_.as_str(), w, true) || opt_find(&m.comments, w, true)
                    || opt_find(&article.state.notes, w, true)
            },
            Filter::Not(g) => !g.matches(article),
            Filter::And(g, h) => g.matches(article) && h.matches(article),
            Filter::Or(g, h) => g.matches(article) || h.matches(article),
            Filter::Id(id) => str_eq(m.id.as_str(), id.as_str()),
            Filter::True => true,
            Filter::False => false,
        }
    }
}

} // verus!
