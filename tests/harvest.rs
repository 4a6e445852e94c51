use arxiv_reader::decode::{
    check_content_type, decode_record, decode_version, response_day, split_on_spaces, DecodeError,
    OaiError, RawListRecords, RawRecord, RawResponse, RawSetList, RawVersion,
};
use arxiv_reader::harvest::{
    absorb_page, absorb_set_list, initial_request, list_request_text, next_request, HarvestError,
};
use arxiv_reader::calendar::CalendarDate;
use arxiv_reader::ledger::{category_of_set, Continuation, Ledger, ResumptionData};
use arxiv_reader::merge::MergeError;

fn raw_version(label: &str) -> RawVersion {
    RawVersion {
        version: label.to_string(),
        date: "Mon, 1 Jan 2024 10:00:00 GMT".to_string(),
        size: "10kb".to_string(),
        source_type: None,
    }
}

fn raw_record(id: &str, labels: &[&str]) -> RawRecord {
    RawRecord {
        datestamp: "2024-01-09".to_string(),
        sets: vec!["cs".to_string()],
        id: id.to_string(),
        submitter: "A. Author".to_string(),
        versions: labels.iter().map(|l| raw_version(l)).collect(),
        title: "A title".to_string(),
        authors: "A. Author".to_string(),
        categories: "cs.LG stat.ML".to_string(),
        comments: None,
        proxy: None,
        report_no: None,
        acm_classes: None,
        msc_classes: None,
        journal_ref: None,
        doi: None,
        license: None,
        abstract_: "An abstract.".to_string(),
    }
}

fn records_page(date: &str, records: Vec<RawRecord>, token: Option<&str>) -> RawResponse {
    RawResponse {
        response_date: date.to_string(),
        errors: vec![],
        list_records: Some(RawListRecords {
            records,
            resumption_token: token.map(|t| t.to_string()),
        }),
    }
}

fn error_page(date: &str, code: &str) -> RawResponse {
    RawResponse {
        response_date: date.to_string(),
        errors: vec![OaiError { code: code.to_string(), value: None }],
        list_records: None,
    }
}

fn ledger_with(name: &str, category: Option<&str>, last_update: Option<&str>) -> Ledger {
    let mut ledger = Ledger::new();
    ledger.add_partition(name.to_string(), category.map(|c| c.to_string()));
    if let Some(d) = last_update {
        Continuation::update_last_update(&mut ledger, name, d);
    }
    ledger
}

fn mark(ledger: &Ledger, name: &str) -> Option<String> {
    Continuation::read(ledger, name).last_update
}

#[test]
fn scenario_two_pages_then_no_matches() {
    let mut ledger = ledger_with("cs", Some("cs"), Some("2024-01-10"));
    let first = next_request(&ledger, "cs").unwrap();
    assert_eq!(first.request_number, 1);
    assert_eq!(
        first.resumption_request,
        "verb=ListRecords&metadataPrefix=arXivRaw&set=cs&from=2024-01-09"
    );
    let page1 = records_page(
        "2024-01-10T12:00:00Z",
        vec![raw_record("2401.00001", &["v1"]), raw_record("2401.00002", &["v1", "v2"])],
        Some("tok1"),
    );
    let out = absorb_page(&mut ledger, "cs", first, page1, vec![None, None]).unwrap();
    assert!(out.more);
    assert_eq!(out.records.len(), 2);
    assert_eq!(out.records[1].versions[1].first_encounter, "2024-01-10");
    let second = next_request(&ledger, "cs").unwrap();
    assert_eq!(second.request_number, 2);
    assert_eq!(second.resumption_request, "verb=ListRecords&resumptionToken=tok1");
    assert_eq!(second.response_date.as_deref(), Some("2024-01-10"));
    let page2 = error_page("2024-01-11T08:00:00Z", "noRecordsMatch");
    let out = absorb_page(&mut ledger, "cs", second, page2, vec![]).unwrap();
    assert!(!out.more);
    assert!(out.records.is_empty());
    assert_eq!(mark(&ledger, "cs").as_deref(), Some("2024-01-10"));
    assert!(Continuation::read(&ledger, "cs").resumption_data.is_none());
    let next = next_request(&ledger, "cs").unwrap();
    assert_eq!(
        next.resumption_request,
        "verb=ListRecords&metadataPrefix=arXivRaw&set=cs&from=2024-01-09"
    );
}

#[test]
fn scenario_wrong_content_type() {
    assert_eq!(check_content_type(Some("text/plain")), Err(DecodeError::ContentType));
    assert_eq!(check_content_type(None), Err(DecodeError::ContentType));
    assert_eq!(check_content_type(Some("text/xml")), Ok(()));
}

#[test]
fn resumption_is_replayed_verbatim() {
    let mut ledger = ledger_with("cs", Some("cs"), Some("2024-01-10"));
    let data = ResumptionData {
        request_number: 7,
        resumption_request: "verb=ListRecords&resumptionToken=abc|123".to_string(),
        response_date: Some("2024-01-12".to_string()),
    };
    Continuation::update_resumption_data(&mut ledger, "cs", data);
    let r = next_request(&ledger, "cs").unwrap();
    assert_eq!(r.request_number, 7);
    assert_eq!(r.resumption_request, "verb=ListRecords&resumptionToken=abc|123");
    assert_eq!(r.response_date.as_deref(), Some("2024-01-12"));
}

#[test]
fn fresh_partition_lists_everything() {
    let ledger = ledger_with("math", Some("math"), None);
    let r = next_request(&ledger, "math").unwrap();
    assert_eq!(r.resumption_request, "verb=ListRecords&metadataPrefix=arXivRaw&set=math");
    let whole = next_request(&Ledger::new(), "").unwrap();
    assert_eq!(whole.resumption_request, "verb=ListRecords&metadataPrefix=arXivRaw");
}

#[test]
fn from_date_crosses_month_and_leap_day() {
    assert_eq!(
        initial_request("cs", Some("2024-03-01")).unwrap(),
        "verb=ListRecords&metadataPrefix=arXivRaw&set=cs&from=2024-02-29"
    );
    assert_eq!(
        initial_request("cs", Some("2024-01-01")).unwrap(),
        "verb=ListRecords&metadataPrefix=arXivRaw&set=cs&from=2023-12-31"
    );
    assert!(matches!(initial_request("cs", Some("yesterday")), Err(HarvestError::BadDate)));
    assert!(matches!(
        list_request_text("cs", Some(CalendarDate { year: 10000, month: 1, day: 1 })),
        Err(HarvestError::BadDate)
    ));
    assert_eq!(
        list_request_text("", Some(CalendarDate { year: 7, month: 3, day: 4 })).unwrap(),
        "verb=ListRecords&metadataPrefix=arXivRaw&from=0007-03-04"
    );
}

#[test]
fn bad_token_clears_resumption_only() {
    let mut ledger = ledger_with("cs", Some("cs"), Some("2024-01-10"));
    let data = ResumptionData {
        request_number: 2,
        resumption_request: "verb=ListRecords&resumptionToken=old".to_string(),
        response_date: Some("2024-01-12".to_string()),
    };
    Continuation::update_resumption_data(&mut ledger, "cs", data.duplicate());
    let r = absorb_page(&mut ledger, "cs", data, error_page("2024-01-13T00:00:00Z", "badResumptionToken"), vec![]);
    assert!(matches!(r, Err(HarvestError::BadResumptionToken)));
    assert!(Continuation::read(&ledger, "cs").resumption_data.is_none());
    assert_eq!(mark(&ledger, "cs").as_deref(), Some("2024-01-10"));
}

#[test]
fn other_protocol_errors_change_nothing() {
    let mut ledger = ledger_with("cs", Some("cs"), Some("2024-01-10"));
    let data = next_request(&ledger, "cs").unwrap();
    let r = absorb_page(&mut ledger, "cs", data, error_page("2024-01-13T00:00:00Z", "badArgument"), vec![]);
    match r {
        Err(HarvestError::Protocol(errors)) => assert_eq!(errors[0].code, "badArgument"),
        _ => panic!("expected a protocol error"),
    }
    assert_eq!(mark(&ledger, "cs").as_deref(), Some("2024-01-10"));
}

#[test]
fn failed_page_leaves_ledger() {
    let mut ledger = ledger_with("cs", Some("cs"), Some("2024-01-10"));
    let data = next_request(&ledger, "cs").unwrap();
    let page = records_page("2024-01-12T00:00:00Z", vec![raw_record("2401.00001", &["x1"])], None);
    let r = absorb_page(&mut ledger, "cs", data, page, vec![None]);
    assert!(matches!(r, Err(HarvestError::Decode(DecodeError::VersionNumber))));
    assert_eq!(mark(&ledger, "cs").as_deref(), Some("2024-01-10"));
    let data = next_request(&ledger, "cs").unwrap();
    let short = records_page("2024-01", vec![], None);
    let r = absorb_page(&mut ledger, "cs", data, short, vec![]);
    assert!(matches!(r, Err(HarvestError::Decode(DecodeError::ResponseDate))));
    let data = next_request(&ledger, "cs").unwrap();
    let empty = RawResponse { response_date: "2024-01-12T00:00:00Z".to_string(), errors: vec![], list_records: None };
    let r = absorb_page(&mut ledger, "cs", data, empty, vec![]);
    assert!(matches!(r, Err(HarvestError::Decode(DecodeError::MissingList))));
    assert_eq!(mark(&ledger, "cs").as_deref(), Some("2024-01-10"));
}

#[test]
fn regression_in_page_is_fatal() {
    let mut ledger = ledger_with("cs", Some("cs"), Some("2024-01-10"));
    let data = next_request(&ledger, "cs").unwrap();
    let page = records_page("2024-01-12T00:00:00Z", vec![raw_record("2401.00001", &["v1", "v2"])], None);
    let stored = absorb_page(&mut ledger, "cs", data, page, vec![None]).unwrap().records.remove(0);
    let data = next_request(&ledger, "cs").unwrap();
    let page = records_page("2024-01-13T00:00:00Z", vec![raw_record("2401.00001", &["v1"])], None);
    let before = mark(&ledger, "cs");
    let r = absorb_page(&mut ledger, "cs", data, page, vec![Some(stored)]);
    assert!(matches!(r, Err(HarvestError::Record(MergeError::VersionRegression))));
    assert_eq!(mark(&ledger, "cs"), before);
}

#[test]
fn page_raises_other_partitions() {
    let mut ledger = ledger_with("cs", Some("cs"), Some("2024-01-10"));
    ledger.add_partition("math".to_string(), Some("math".to_string()));
    Continuation::update_last_update(&mut ledger, "math", "2024-01-05");
    ledger.add_partition("physics".to_string(), Some("physics".to_string()));
    let data = next_request(&ledger, "cs").unwrap();
    let page = records_page("2024-01-12T00:00:00Z", vec![raw_record("2401.00001", &["v1"])], None);
    let out = absorb_page(&mut ledger, "cs", data, page, vec![None]).unwrap();
    assert!(!out.more);
    assert_eq!(mark(&ledger, "cs").as_deref(), Some("2024-01-12"));
    assert_eq!(mark(&ledger, "math").as_deref(), Some("2024-01-12"));
    assert_eq!(mark(&ledger, "physics"), None);
}

#[test]
fn marks_never_drop() {
    let mut ledger = ledger_with("cs", Some("cs"), Some("2024-01-10"));
    Continuation::reset_last_update(&mut ledger, "2024-01-01");
    assert_eq!(mark(&ledger, "cs").as_deref(), Some("2024-01-10"));
    Continuation::update_last_update(&mut ledger, "cs", "2023-12-31");
    assert_eq!(mark(&ledger, "cs").as_deref(), Some("2024-01-10"));
    Continuation::reset_last_update(&mut ledger, "2024-02-01");
    assert_eq!(mark(&ledger, "cs").as_deref(), Some("2024-02-01"));
    ledger.import_marks(vec![("cs".to_string(), "2024-01-20".to_string())]);
    assert_eq!(mark(&ledger, "cs").as_deref(), Some("2024-02-01"));
    ledger.import_marks(vec![("cs".to_string(), "2024-03-01".to_string())]);
    assert_eq!(mark(&ledger, "cs").as_deref(), Some("2024-03-01"));
}

#[test]
fn clear_resumption_keeps_mark() {
    let mut ledger = ledger_with("cs", Some("cs"), Some("2024-01-10"));
    let data = ResumptionData { request_number: 2, resumption_request: "x".to_string(), response_date: None };
    Continuation::update_resumption_data(&mut ledger, "cs", data);
    assert!(Continuation::read(&ledger, "cs").resumption_data.is_some());
    Continuation::clear_resumption_data(&mut ledger, "cs");
    assert!(Continuation::read(&ledger, "cs").resumption_data.is_none());
    assert_eq!(mark(&ledger, "cs").as_deref(), Some("2024-01-10"));
}

#[test]
fn partitions_by_category() {
    let mut ledger = Ledger::new();
    let r = absorb_set_list(
        &mut ledger,
        RawSetList {
            errors: vec![],
            sets: Some(vec!["cs".to_string(), "math:math:NT".to_string(), "physics:hep-th".to_string()]),
            has_resumption_token: false,
        },
    );
    assert!(r.is_ok());
    assert_eq!(Continuation::set_for_category(&ledger, "math.NT").as_deref(), Some("math:math:NT"));
    assert_eq!(Continuation::set_for_category(&ledger, "hep-th").as_deref(), Some("physics:hep-th"));
    assert_eq!(Continuation::set_for_category(&ledger, "cs"), None);
    assert_eq!(Continuation::set_for_category(&ledger, "").as_deref(), Some(""));
    assert_eq!(ledger.partitions.len(), 2);
    let again = RawSetList { errors: vec![], sets: Some(vec!["math:math:NT".to_string()]), has_resumption_token: false };
    assert!(absorb_set_list(&mut ledger, again).is_ok());
    assert_eq!(ledger.partitions.len(), 2);
    let multi = RawSetList { errors: vec![], sets: Some(vec![]), has_resumption_token: true };
    assert!(matches!(absorb_set_list(&mut ledger, multi), Err(HarvestError::MultiPageSetList)));
    assert_eq!(category_of_set("math:math:NT").as_deref(), Some("math.NT"));
    assert_eq!(category_of_set("cs"), None);
}

#[test]
fn decoding_values() {
    assert_eq!(response_day("2024-01-10T12:00:00Z").unwrap(), "2024-01-10");
    assert_eq!(response_day("2024"), Err(DecodeError::ResponseDate));
    assert_eq!(split_on_spaces("cs.LG  stat.ML"), vec!["cs.LG", "", "stat.ML"]);
    assert_eq!(split_on_spaces(""), vec![""]);
    let v = decode_version(raw_version("v12")).unwrap();
    assert_eq!(v.number, 12);
    assert_eq!(v.date.utc_seconds, 1_704_103_200);
    assert_eq!(v.date.offset_seconds, 0);
    let mut eastern = raw_version("v1");
    eastern.date = "Mon, 1 Jan 2024 10:00:00 +0200".to_string();
    let v = decode_version(eastern).unwrap();
    assert_eq!(v.date.utc_seconds, 1_704_096_000);
    assert_eq!(v.date.offset_seconds, 7200);
    assert_eq!(decode_version(raw_version("12")).err(), Some(DecodeError::VersionNumber));
    let mut bad_date = raw_version("v1");
    bad_date.date = "2024-01-01".to_string();
    assert_eq!(decode_version(bad_date).err(), Some(DecodeError::VersionDate));
    assert_eq!(decode_record(raw_record("Bad Id", &["v1"])).err(), Some(DecodeError::Id));
    let rec = decode_record(raw_record("2401.00001", &["v1", "v2"])).unwrap();
    assert_eq!(rec.categories, vec!["cs.LG", "stat.ML"]);
    assert_eq!(rec.last_change.as_deref(), Some("2024-01-09"));
    assert_eq!(rec.versions.len(), 2);
}

#[test]
fn later_pages_merge_at_their_own_date() {
    let mut ledger = ledger_with("cs", Some("cs"), Some("2024-01-09"));
    ledger.add_partition("math".to_string(), Some("math".to_string()));
    Continuation::update_last_update(&mut ledger, "math", "2024-01-11");
    let first = next_request(&ledger, "cs").unwrap();
    let page1 = records_page("2024-01-10T00:00:00Z", vec![raw_record("2401.00001", &["v1"])], Some("t"));
    let out1 = absorb_page(&mut ledger, "cs", first, page1, vec![None]).unwrap();
    let stored = out1.records.into_iter().next();
    let second = next_request(&ledger, "cs").unwrap();
    assert_eq!(second.response_date.as_deref(), Some("2024-01-10"));
    let page2 = records_page(
        "2024-01-12T00:00:00Z",
        vec![raw_record("2401.00001", &["v1", "v2"]), raw_record("2401.00002", &["v1"])],
        None,
    );
    let out2 = absorb_page(&mut ledger, "cs", second, page2, vec![stored, None]).unwrap();
    assert!(!out2.more);
    let a = &out2.records[0];
    assert_eq!(a.versions[0].first_encounter, "2024-01-10");
    assert_eq!(a.versions[1].first_encounter, "2024-01-12");
    assert_eq!(out2.records[1].versions[0].first_encounter, "2024-01-12");
    assert_eq!(mark(&ledger, "math").as_deref(), Some("2024-01-12"));
    assert_eq!(mark(&ledger, "cs").as_deref(), Some("2024-01-12"));
    assert!(Continuation::read(&ledger, "cs").resumption_data.is_none());
}

#[test]
fn import_raises_marks_by_name() {
    let mut ledger = ledger_with("cs", Some("cs"), Some("2024-01-10"));
    ledger.add_partition("math".to_string(), Some("math".to_string()));
    let data = ResumptionData { request_number: 3, resumption_request: "x".to_string(), response_date: None };
    Continuation::update_resumption_data(&mut ledger, "cs", data);
    ledger.import_marks(vec![("cs".to_string(), "2024-01-05".to_string())]);
    assert_eq!(mark(&ledger, "cs").as_deref(), Some("2024-01-10"));
    assert!(Continuation::read(&ledger, "cs").resumption_data.is_some());
    ledger.import_marks(vec![
        ("math".to_string(), "2024-01-02".to_string()),
        ("cs".to_string(), "2024-01-20".to_string()),
        ("math".to_string(), "2024-01-01".to_string()),
        ("nope".to_string(), "2024-01-30".to_string()),
    ]);
    assert_eq!(mark(&ledger, "cs").as_deref(), Some("2024-01-20"));
    assert!(Continuation::read(&ledger, "cs").resumption_data.is_none());
    assert_eq!(mark(&ledger, "math").as_deref(), Some("2024-01-02"));
    assert_eq!(ledger.partitions.len(), 2);
}

#[test]
fn raise_last_update_only_raises() {
    let mut ledger = ledger_with("cs", Some("cs"), Some("2024-01-10"));
    Continuation::raise_last_update(&mut ledger, "cs", "2024-01-01");
    assert_eq!(mark(&ledger, "cs").as_deref(), Some("2024-01-10"));
    Continuation::raise_last_update(&mut ledger, "cs", "2024-02-01");
    assert_eq!(mark(&ledger, "cs").as_deref(), Some("2024-02-01"));
}
