use std::str::FromStr;

use arxiv_reader::ident::{ArxivId, IdError};
use arxiv_reader::tag::{InvalidTagName, TagName};

#[test]
fn bla() {
    assert!(ArxivId::from_str("1234.56789").is_ok());
    assert!(ArxivId::from_str("math/123456").is_ok());
    assert!(ArxivId::from_str("").is_err());
    assert!(ArxivId::from_str(".").is_err());
    assert!(ArxivId::from_str("ä").is_err());
    assert!(ArxivId::from_str("12345678901234567890").is_err());
}

#[test]
fn id_text_is_kept() {
    let id = ArxivId::parse("hep-th/9901001").unwrap();
    assert_eq!(id.as_str(), "hep-th/9901001");
    assert_eq!(id.to_string(), "hep-th/9901001");
}

#[test]
fn id_longest_accepted() {
    assert!(ArxivId::parse("1234567890123456789").is_ok());
    assert_eq!(ArxivId::parse("12345678901234567890"), Err(IdError::InvalidId));
    assert_eq!(ArxivId::parse("Abc"), Err(IdError::InvalidId));
    assert_eq!(ArxivId::parse("-abc"), Err(IdError::InvalidId));
}

#[test]
fn parse_with_version_cases() {
    let (id, v) = ArxivId::parse_with_version("1234.56789v3").unwrap();
    assert_eq!(id.as_str(), "1234.56789");
    assert_eq!(v, Some(3));
    let (id, v) = ArxivId::parse_with_version("1234.56789").unwrap();
    assert_eq!(id.as_str(), "1234.56789");
    assert_eq!(v, None);
    assert_eq!(
        ArxivId::parse_with_version("1234.56789vx").map(|_| ()),
        Err(IdError::InvalidVersion)
    );
    assert_eq!(
        ArxivId::parse_with_version("1234.56789v4294967296").map(|_| ()),
        Err(IdError::InvalidVersion)
    );
    let (_, v) = ArxivId::parse_with_version("1234.56789v4294967295").unwrap();
    assert_eq!(v, Some(4294967295));
    assert_eq!(ArxivId::parse_with_version("v2").map(|_| ()), Err(IdError::InvalidId));
}

#[test]
fn dir_name_round_trip() {
    let id = ArxivId::parse("math/0601001").unwrap();
    assert_eq!(id.dir_name(), "math_0601001");
    let back = ArxivId::from_dir_name("math_0601001").unwrap();
    assert_eq!(back, id);
    assert!(ArxivId::from_dir_name("Math_1").is_none());
}

#[test]
fn directory_joins_paths() {
    let id = ArxivId::parse("math/0601001").unwrap();
    assert_eq!(id.directory("/data"), "/data/articles/math_0601001");
    assert_eq!(id.directory("/data/"), "/data/articles/math_0601001");
    assert_eq!(id.directory(""), "articles/math_0601001");
}

#[test]
fn tag_names() {
    assert_eq!(TagName::from_str("to-read_2").unwrap().as_str(), "to-read_2");
    assert_eq!(TagName::parse("_x"), Err(InvalidTagName));
    assert_eq!(TagName::parse(""), Err(InvalidTagName));
    assert_eq!(TagName::parse("a b"), Err(InvalidTagName));
}
