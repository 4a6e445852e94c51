use std::str::FromStr;

use arxiv_reader::config::{Highlight, Hooks};
use arxiv_reader::filter::{parse_seen_line, Article, ArticleState, Filter, SeenError};
use arxiv_reader::query::{parse_filter, tokenize, FilterError, TokenKind};
use arxiv_reader::ident::ArxivId;
use arxiv_reader::record::{ArticleMetadata, Timestamp, Version};
use arxiv_reader::tag::TagName;

fn article() -> Article {
    let metadata = ArticleMetadata {
        id: ArxivId::parse("2509.01234").unwrap(),
        submitter: "N. Theorist".to_string(),
        versions: vec![Version {
            number: 1,
            // 2025-09-15T00:00:00Z
            date: Timestamp { utc_seconds: 1_757_894_400, offset_seconds: 3600 },
            size: "20kb".to_string(),
            source_type: None,
            first_encounter: "2025-10-02".to_string(),
        }],
        title: "On Prime Gaps".to_string(),
        authors: "N. Theorist, A. Geometer".to_string(),
        categories: vec!["math.AG".to_string(), "math.NT".to_string()],
        comments: Some("12 pages".to_string()),
        proxy: None,
        report_no: None,
        acm_classes: None,
        msc_classes: Some("11N05".to_string()),
        journal_ref: None,
        doi: None,
        license: None,
        abstract_: "We bound GAPS between primes.".to_string(),
        last_change: None,
        sets: None,
    };
    Article { metadata, state: ArticleState::new() }
}

fn b(f: Filter) -> Box<Filter> {
    Box::new(f)
}

#[test]
fn category_conditions() {
    let a = article();
    assert!(Filter::PrimaryCategoryIs("math.AG".to_string()).matches(&a));
    assert!(!Filter::PrimaryCategoryIs("math.NT".to_string()).matches(&a));
    assert!(Filter::InCategory("math.NT".to_string()).matches(&a));
    assert!(!Filter::InCategory("math.CO".to_string()).matches(&a));
}

#[test]
fn date_conditions() {
    let a = article();
    assert!(Filter::FirstVersionEncounteredAfter("2025-10-01".to_string()).matches(&a));
    assert!(Filter::FirstVersionEncounteredAfter("2025-10-02".to_string()).matches(&a));
    assert!(!Filter::FirstVersionEncounteredAfter("2025-10-03".to_string()).matches(&a));
    assert!(Filter::FirstVersionSubmittedAfter("2025-09-01".to_string()).matches(&a));
    assert!(Filter::FirstVersionSubmittedAfter("2025-09-15".to_string()).matches(&a));
    assert!(!Filter::FirstVersionSubmittedAfter("2025-09-16".to_string()).matches(&a));
}

#[test]
fn text_conditions() {
    let a = article();
    assert!(Filter::Title("prime".to_string()).matches(&a));
    assert!(Filter::Abstract("gaps".to_string()).matches(&a));
    assert!(Filter::Author("Geometer".to_string()).matches(&a));
    assert!(!Filter::Author("geometer".to_string()).matches(&a));
    assert!(Filter::MSCClass("11N".to_string()).matches(&a));
    assert!(!Filter::ACMClass("F.2".to_string()).matches(&a));
    assert!(Filter::Comments("PAGES".to_string()).matches(&a));
    assert!(Filter::Any("geometer".to_string()).matches(&a) == false);
    assert!(Filter::Any("math.NT".to_string()).matches(&a));
    assert!(Filter::Id("2509.01234".to_string()).matches(&a));
}

#[test]
fn state_conditions() {
    let mut a = article();
    assert!(!Filter::Bookmarked.matches(&a));
    assert!(!Filter::Seen.matches(&a));
    a.state.tags.push(TagName::parse("to-read").unwrap());
    a.state.last_seen_version = 1;
    a.state.notes = Some("Check Lemma 3".to_string());
    assert!(Filter::Bookmarked.matches(&a));
    assert!(Filter::Seen.matches(&a));
    assert!(Filter::Tag(TagName::parse("to-read").unwrap()).matches(&a));
    assert!(!Filter::Tag(TagName::parse("done").unwrap()).matches(&a));
    assert!(Filter::Notes("lemma".to_string()).matches(&a));
}

#[test]
fn combined_conditions() {
    let a = article();
    let f = Filter::And(
        b(Filter::Or(
            b(Filter::PrimaryCategoryIs("math.NT".to_string())),
            b(Filter::And(
                b(Filter::PrimaryCategoryIs("math.AG".to_string())),
                b(Filter::InCategory("math.NT".to_string())),
            )),
        )),
        b(Filter::Or(
            b(Filter::FirstVersionEncounteredAfter("2025-10-01".to_string())),
            b(Filter::FirstVersionSubmittedAfter("2025-09-01".to_string())),
        )),
    );
    assert!(f.matches(&a));
    assert!(!Filter::Not(b(f)).matches(&a));
    assert!(Filter::True.matches(&a));
    assert!(!Filter::False.matches(&a));
}

#[test]
fn normal() {
    let a = Filter::from_str(
        "(primary_category math.NT || (primary_category math.AG && category math.NT) || (primary_category math.CO && category math.NT)) && (first_version_encountered_after 2025-10-01 || first_version_submitted_after 2025-09-01)",
    );
    let b = Filter::And(
        Box::new(Filter::Or(
            Box::new(Filter::Or(
                Box::new(Filter::PrimaryCategoryIs("math.NT".to_string())),
                Box::new(Filter::And(
                    Box::new(Filter::PrimaryCategoryIs("math.AG".to_string())),
                    Box::new(Filter::InCategory("math.NT".to_string()))
                ))
            )),
            Box::new(Filter::And(
                Box::new(Filter::PrimaryCategoryIs("math.CO".to_string())),
                Box::new(Filter::InCategory("math.NT".to_string()))
            ))
        )),
        Box::new(Filter::Or(
            Box::new(Filter::FirstVersionEncounteredAfter("2025-10-01".to_string())),
            Box::new(Filter::FirstVersionSubmittedAfter("2025-09-01".to_string())),
        ))
    );
    assert_eq!(a.unwrap(), b);
}

#[test]
fn tokens_of_a_filter() {
    let ts = tokenize("!(title 'a \\'b') && x").unwrap();
    let kinds: Vec<TokenKind> = ts.iter().map(|t| t.kind).collect();
    assert_eq!(
        kinds,
        vec![
            TokenKind::Not,
            TokenKind::Open,
            TokenKind::Word,
            TokenKind::Quoted,
            TokenKind::Close,
            TokenKind::And,
            TokenKind::Word
        ]
    );
    assert_eq!(ts[3].text, "a 'b");
    assert_eq!(ts[3].start, 8);
    assert_eq!(ts[6].text, "x");
    assert_eq!(tokenize("a & b").err(), Some(FilterError::Lex(Some(3))));
    assert_eq!(tokenize("a |").err(), Some(FilterError::Lex(None)));
    assert_eq!(tokenize("'open").err(), Some(FilterError::Lex(None)));
    assert_eq!(tokenize("'\\x'").err(), Some(FilterError::Lex(Some(1))));
}

#[test]
fn word_lists_fold_left() {
    let f = parse_filter("title prime 'gap' && seen").unwrap();
    let expected = Filter::And(
        b(Filter::And(
            b(Filter::And(b(Filter::True), b(Filter::Title("prime".to_string())))),
            b(Filter::Title("gap".to_string())),
        )),
        b(Filter::Seen),
    );
    assert_eq!(f, expected);
    let t = parse_filter("tag to-read").unwrap();
    assert_eq!(
        t,
        Filter::And(b(Filter::True), b(Filter::Tag(arxiv_reader::tag::TagName::parse("to-read").unwrap())))
    );
}

#[test]
fn filter_syntax_errors() {
    assert_eq!(parse_filter("").err(), Some(FilterError::Syntax(None)));
    assert_eq!(parse_filter("seen && bookmarked || true").err(), Some(FilterError::Syntax(Some(3))));
    assert_eq!(parse_filter("(seen").err(), Some(FilterError::Syntax(None)));
    assert_eq!(parse_filter("seen)").err(), Some(FilterError::Syntax(Some(1))));
    assert_eq!(parse_filter("category math_NT").err(), Some(FilterError::Syntax(Some(1))));
    assert_eq!(parse_filter("first_version_encountered_after 2025-1-01").err(), Some(FilterError::Syntax(Some(1))));
    assert_eq!(parse_filter("msc 123456").err(), Some(FilterError::Syntax(Some(1))));
    assert_eq!(parse_filter("tag _bad").err(), Some(FilterError::Syntax(Some(0))));
    assert_eq!(parse_filter("nonsense").err(), Some(FilterError::Syntax(Some(0))));
    assert!(parse_filter("!seen || msc 11N05 || acm F21").is_ok());
}

#[test]
fn config_defaults_and_fresh_state() {
    let hooks = Hooks::default();
    assert!(hooks.pre_pull.is_none() && hooks.push.is_none());
    let h = Highlight::default();
    assert!(h.keywords.is_empty() && h.authors.is_empty() && h.categories.is_empty());
    let s = ArticleState::new();
    assert_eq!(s.last_seen_version, 0);
    assert!(s.tags.is_empty() && s.notes.is_none());
}

#[test]
fn seen_lines() {
    let e = parse_seen_line("2401.00001 3 true false").unwrap();
    assert_eq!(e.id.as_str(), "2401.00001");
    assert_eq!(e.version, 3);
    assert!(e.journal && !e.doi);
    let e = parse_seen_line("2401.00001 2").unwrap();
    assert!(!e.journal && !e.doi);
    assert_eq!(parse_seen_line("2401.00001").err(), Some(SeenError::MissingVersion));
    assert_eq!(parse_seen_line("X 2").err(), Some(SeenError::InvalidId));
    assert_eq!(parse_seen_line("2401.00001 two").err(), Some(SeenError::InvalidVersion));
    assert_eq!(parse_seen_line("2401.00001 2 true true x").err(), Some(SeenError::TooManyColumns));
    let mut s = ArticleState::new();
    s.note_seen(4, &parse_seen_line("2401.00001 3 true").unwrap());
    s.note_seen(9, &parse_seen_line("2401.00001 2 false true").unwrap());
    assert_eq!(s.last_seen_at, 9);
    assert_eq!(s.last_seen_version, 3);
    assert!(s.seen_journal && s.seen_doi);
}

#[test]
fn tags_file_lines() {
    let lines = vec!["to-read".to_string(), "bookmarked".to_string(), "to-read".to_string()];
    let tags = ArticleState::tags_from_lines(&lines).unwrap();
    let names: Vec<&str> = tags.iter().map(|t| t.as_str()).collect();
    assert_eq!(names, vec!["to-read", "bookmarked"]);
    assert!(ArticleState::tags_from_lines(&vec!["bad tag".to_string()]).is_err());
    assert!(ArticleState::tags_from_lines(&vec![]).unwrap().is_empty());
}
