use arxiv_reader::ident::ArxivId;
use arxiv_reader::merge::{
    import_record, merge_record, merge_versions, IncomingRecord, IncomingVersion, MergeError,
};
use arxiv_reader::record::{ArticleMetadata, RecordError, Timestamp, Version};

fn incoming_version(number: u32) -> IncomingVersion {
    IncomingVersion {
        number,
        date: Timestamp { utc_seconds: 1_704_067_200 + number as i64, offset_seconds: 0 },
        size: format!("{number}kb"),
        source_type: None,
    }
}

fn incoming(id: &str, n_versions: u32) -> IncomingRecord {
    IncomingRecord {
        id: ArxivId::parse(id).unwrap(),
        submitter: "A. Author".to_string(),
        versions: (1..=n_versions).map(incoming_version).collect(),
        title: "A title".to_string(),
        authors: "A. Author".to_string(),
        categories: vec!["math.NT".to_string()],
        comments: Some("10 pages".to_string()),
        proxy: None,
        report_no: None,
        acm_classes: None,
        msc_classes: Some("11A41".to_string()),
        journal_ref: None,
        doi: None,
        license: None,
        abstract_: "An abstract.".to_string(),
        last_change: Some("2024-01-06".to_string()),
        sets: Some(vec!["math".to_string()]),
    }
}

fn encounters(m: &ArticleMetadata) -> Vec<String> {
    m.versions.iter().map(|v| v.first_encounter.clone()).collect()
}

#[test]
fn scenario_two_versions_keep_first_encounter() {
    let stored = merge_record(incoming("2401.00001", 1), None, "2024-01-05").unwrap();
    assert_eq!(encounters(&stored), vec!["2024-01-05"]);
    let merged = merge_record(incoming("2401.00001", 2), Some(&stored), "2024-01-06").unwrap();
    assert_eq!(encounters(&merged), vec!["2024-01-05", "2024-01-06"]);
    assert_eq!(merged.versions[1].number, 2);
    assert_eq!(merged.versions[1].size, "2kb");
}

#[test]
fn reapplying_a_page_changes_nothing() {
    let stored = merge_record(incoming("2401.00001", 1), None, "2024-01-05").unwrap();
    let once = merge_record(incoming("2401.00001", 2), Some(&stored), "2024-01-06").unwrap();
    let twice = merge_record(incoming("2401.00001", 2), Some(&once), "2024-01-06").unwrap();
    assert_eq!(encounters(&twice), encounters(&once));
    assert_eq!(twice.title, once.title);
    assert_eq!(twice.categories, once.categories);
    assert_eq!(twice.comments, once.comments);
}

#[test]
fn version_count_may_not_drop() {
    let stored = merge_record(incoming("2401.00001", 2), None, "2024-01-05").unwrap();
    let r = merge_record(incoming("2401.00001", 1), Some(&stored), "2024-01-06");
    assert_eq!(r.err(), Some(MergeError::VersionRegression));
    assert_eq!(encounters(&stored), vec!["2024-01-05", "2024-01-05"]);
}

#[test]
fn first_encounter_is_earliest_of_pages() {
    let a = merge_record(incoming("2401.00001", 1), None, "2024-01-07").unwrap();
    let b = merge_record(incoming("2401.00001", 1), Some(&a), "2024-01-03").unwrap();
    let c = merge_record(incoming("2401.00001", 1), Some(&b), "2024-01-09").unwrap();
    assert_eq!(encounters(&c), vec!["2024-01-03"]);
}

#[test]
fn merge_versions_without_stored_record() {
    let vs = merge_versions(None, vec![incoming_version(1)], "2024-02-01").unwrap();
    assert_eq!(vs.len(), 1);
    assert_eq!(vs[0].first_encounter, "2024-02-01");
    assert_eq!(vs[0].date.utc_seconds, 1_704_067_201);
}

#[test]
fn invalid_merged_records_are_refused() {
    let mut no_categories = incoming("2401.00001", 1);
    no_categories.categories.clear();
    assert_eq!(
        merge_record(no_categories, None, "2024-01-05").err(),
        Some(MergeError::Invalid(RecordError::NoCategories))
    );
    let no_versions = incoming("2401.00001", 0);
    assert_eq!(
        merge_record(no_versions, None, "2024-01-05").err(),
        Some(MergeError::Invalid(RecordError::NoVersions))
    );
    let mut misnumbered = incoming("2401.00001", 2);
    misnumbered.versions[1].number = 3;
    assert_eq!(
        merge_record(misnumbered, None, "2024-01-05").err(),
        Some(MergeError::Invalid(RecordError::VersionNumber))
    );
}

#[test]
fn import_keeps_earlier_encounters() {
    let stored = merge_record(incoming("2401.00001", 1), None, "2024-01-05").unwrap();
    let dumped = merge_record(incoming("2401.00001", 2), None, "2024-01-08").unwrap();
    let imported = import_record(dumped, Some(&stored)).unwrap();
    assert_eq!(encounters(&imported), vec!["2024-01-05", "2024-01-08"]);
    assert_eq!(imported.title, "A title");
    assert_eq!(imported.msc_classes.as_deref(), Some("11A41"));
    assert_eq!(imported.comments.as_deref(), Some("10 pages"));
    assert_eq!(imported.last_change.as_deref(), Some("2024-01-06"));
    let again = import_record(imported, Some(&stored)).unwrap();
    assert_eq!(encounters(&again), vec!["2024-01-05", "2024-01-08"]);
    let short = merge_record(incoming("2401.00001", 1), None, "2024-01-01").unwrap();
    let longer = merge_record(incoming("2401.00001", 2), None, "2024-01-01").unwrap();
    assert_eq!(import_record(short, Some(&longer)).err(), Some(MergeError::VersionRegression));
}

fn version(number: u32, size: &str, source_type: Option<&str>) -> Version {
    Version {
        number,
        date: Timestamp { utc_seconds: 0, offset_seconds: 0 },
        size: size.to_string(),
        source_type: source_type.map(|s| s.to_string()),
        first_encounter: "2024-01-01".to_string(),
    }
}

#[test]
fn version_source_type_guesses() {
    assert!(version(1, "0kb", None).probably_withdrawn());
    assert!(version(1, "12kb", Some("I")).probably_withdrawn());
    assert!(!version(1, "12kb", None).probably_withdrawn());
    assert!(version(1, "12kb", Some("SD")).probably_src_secret());
    assert!(!version(1, "12kb", Some("AS")).probably_src_secret());
    assert!(!version(1, "12kb", Some("H")).probably_has_pdf());
    assert!(version(1, "12kb", Some("P")).probably_has_pdf());
    assert!(!version(1, "12kb", Some("S")).probably_has_src());
    assert!(version(1, "12kb", None).probably_has_src());
}

#[test]
fn first_and_last_version() {
    let m = merge_record(incoming("2401.00001", 3), None, "2024-01-05").unwrap();
    assert_eq!(m.first_version().number, 1);
    assert_eq!(m.last_version().number, 3);
    assert_eq!(m.validate(), Ok(()));
}
