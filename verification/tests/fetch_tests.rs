use solar_series::calendar::CivilDate;
use solar_series::fetch::{
    midnight_literal, query_range, DayFetch, FetchAction, FetchError, FetchPhase, QueryRange,
    CURSOR_LIFETIME, INDEX_NAME, PAGE_SIZE, TIME_FIELD,
};
use solar_series::filepath::{
    get_json_file_name_by_datetime, get_json_file_path_by_datetime, json_file_name,
    json_file_path, CACHE_DIRECTORY,
};
use solar_series::text::{push_decimal, push_signed_decimal, push_two_digits};
use solar_series::time::Timestamp;

const START: i64 = 1_664_323_200; // 2022-09-28T00:00:00

fn range() -> QueryRange {
    query_range(&Timestamp::new(START + 500, 0)).unwrap()
}

#[test]
fn numerals_are_written_in_decimal() {
    let mut s = String::from("n=");
    push_decimal(&mut s, 0);
    push_decimal(&mut s, 7);
    push_decimal(&mut s, 10);
    push_decimal(&mut s, 18_446_744_073_709_551_615);
    assert_eq!(s, "n=071018446744073709551615");
    let mut s = String::new();
    push_signed_decimal(&mut s, -5);
    push_signed_decimal(&mut s, 0);
    push_signed_decimal(&mut s, 2022);
    push_signed_decimal(&mut s, i64::MIN);
    assert_eq!(s, "-502022-9223372036854775808");
    let mut s = String::new();
    push_two_digits(&mut s, 0);
    push_two_digits(&mut s, 9);
    push_two_digits(&mut s, 10);
    push_two_digits(&mut s, 123);
    assert_eq!(s, "000910123");
}

#[test]
fn cache_files_are_named_by_their_date() {
    let date = CivilDate { year: 2022, month: 9, day: 28 };
    assert_eq!(json_file_name(&date), "docs_20220928.json");
    assert_eq!(json_file_name(&CivilDate { year: 2022, month: 12, day: 1 }), "docs_20221201.json");
    assert_eq!(json_file_name(&CivilDate { year: 987, month: 1, day: 2 }), "docs_9870102.json");
    assert_eq!(json_file_name(&CivilDate { year: -4, month: 1, day: 2 }), "docs_-40102.json");
    assert_eq!(json_file_name(&date), format!("docs_{}{:0>2}{:0>2}.json", 2022, 9, 28));
    assert_eq!(CACHE_DIRECTORY, "jsons");
    assert_eq!(json_file_path("/var/data", &date), "/var/data/jsons/docs_20220928.json");
}

#[test]
fn cache_files_are_found_by_timestamp() {
    let t = Timestamp::new(START + 86_399, 999);
    assert_eq!(get_json_file_name_by_datetime(&t), Some("docs_20220928.json".to_string()));
    let t = Timestamp::new(START + 86_400, 0);
    assert_eq!(get_json_file_name_by_datetime(&t), Some("docs_20220929.json".to_string()));
    assert_eq!(
        get_json_file_path_by_datetime("work", &t),
        Some("work/jsons/docs_20220929.json".to_string())
    );
    assert_eq!(get_json_file_name_by_datetime(&Timestamp::new(i64::MAX, 0)), None);
    assert_eq!(get_json_file_path_by_datetime("work", &Timestamp::new(i64::MIN, 0)), None);
}

#[test]
fn a_query_names_the_day_by_its_local_midnights() {
    let r = range();
    assert_eq!(r.gte, "2022-09-28T00:00:00");
    assert_eq!(r.lt, "2022-09-29T00:00:00");
    let r = query_range(&Timestamp::new(START + 2 * 86_400 + 86_399, 0)).unwrap();
    assert_eq!(r.gte, "2022-09-30T00:00:00");
    assert_eq!(r.lt, "2022-10-01T00:00:00");
    let r = query_range(&Timestamp::new(1_672_444_800, 0)).unwrap(); // 2022-12-31
    assert_eq!(r.gte, "2022-12-31T00:00:00");
    assert_eq!(r.lt, "2023-01-01T00:00:00");
    assert!(query_range(&Timestamp::new(i64::MAX, 0)).is_none());
    assert!(query_range(&Timestamp::new(i64::MAX - 86_400, 0)).is_none());
    assert_eq!(
        midnight_literal(&CivilDate { year: 2022, month: 1, day: 5 }),
        "2022-01-05T00:00:00"
    );
}

#[test]
fn the_protocol_constants_are_fixed() {
    assert_eq!(PAGE_SIZE, 1000);
    assert_eq!(CURSOR_LIFETIME, "2m");
    assert_eq!(INDEX_NAME, "pcs_recyclekan");
    assert_eq!(TIME_FIELD, "JPtime");
}

#[test]
fn a_cached_day_sends_nothing() {
    let (fetch, action) = DayFetch::<u32>::begin(range(), true, true);
    assert!(matches!(action, FetchAction::UseCache));
    assert_eq!(fetch.phase(), FetchPhase::Complete);
    // Asking again finds the cache again, and whatever is reported to a
    // complete retrieval is left aside.
    let (fetch, action) = fetch.on_page(vec![1, 2, 3], "c".to_string());
    assert!(matches!(action, FetchAction::Idle));
    assert_eq!(fetch.phase(), FetchPhase::Complete);
    assert_eq!(fetch.records_held(), 0);
    let (fetch, action) = fetch.on_failure();
    assert!(matches!(action, FetchAction::Idle));
    assert_eq!(fetch.phase(), FetchPhase::Complete);
    let (again, action) = DayFetch::<u32>::begin(range(), true, true);
    assert!(matches!(action, FetchAction::UseCache));
    assert_eq!(again.phase(), FetchPhase::Complete);
}

#[test]
fn missing_credentials_end_a_retrieval_at_once() {
    let (fetch, action) = DayFetch::<u32>::begin(range(), false, false);
    assert!(matches!(action, FetchAction::Abort { cause: FetchError::ConfigMissing }));
    assert_eq!(fetch.phase(), FetchPhase::Failed(FetchError::ConfigMissing));
    let (fetch, action) = DayFetch::<u32>::begin(range(), false, true);
    assert!(matches!(action, FetchAction::Abort { cause: FetchError::ConfigMissing }));
    let (_, action) = fetch.on_page(vec![1], "c".to_string());
    assert!(matches!(action, FetchAction::Idle));
}

#[test]
fn pages_are_joined_and_stored_as_one() {
    let (fetch, action) = DayFetch::<u32>::begin(range(), true, false);
    match action {
        FetchAction::Search { index, field, gte, lt, page_size, keep_alive } => {
            assert_eq!(index, "pcs_recyclekan");
            assert_eq!(field, "JPtime");
            assert_eq!(gte, "2022-09-28T00:00:00");
            assert_eq!(lt, "2022-09-29T00:00:00");
            assert_eq!(page_size, 1000);
            assert_eq!(keep_alive, "2m");
        }
        _ => panic!("the first query was not sent"),
    }
    assert_eq!(fetch.phase(), FetchPhase::AwaitingPage);
    let (fetch, action) = fetch.on_page(vec![1, 2, 3], "first".to_string());
    match action {
        FetchAction::Scroll { cursor, keep_alive } => {
            assert_eq!(cursor, "first");
            assert_eq!(keep_alive, "2m");
        }
        _ => panic!("the second page was not asked for"),
    }
    assert_eq!(fetch.records_held(), 3);
    let (fetch, action) = fetch.on_page(vec![4, 5], "second".to_string());
    match action {
        FetchAction::Scroll { cursor, .. } => assert_eq!(cursor, "second"),
        _ => panic!("the third page was not asked for"),
    }
    assert_eq!(fetch.phase(), FetchPhase::AwaitingPage);
    let (fetch, action) = fetch.on_page(Vec::new(), "third".to_string());
    match action {
        FetchAction::Store { records } => assert_eq!(records, vec![1, 2, 3, 4, 5]),
        _ => panic!("the records were not handed out"),
    }
    assert_eq!(fetch.phase(), FetchPhase::Complete);
    assert_eq!(fetch.records_held(), 0);
    let (_, action) = fetch.on_page(vec![6], "late".to_string());
    assert!(matches!(action, FetchAction::Idle));
}

#[test]
fn a_day_without_records_is_stored_empty() {
    let (fetch, _) = DayFetch::<u32>::begin(range(), true, false);
    let (fetch, action) = fetch.on_page(Vec::new(), "c".to_string());
    match action {
        FetchAction::Store { records } => assert!(records.is_empty()),
        _ => panic!("the empty day was not handed out"),
    }
    assert_eq!(fetch.phase(), FetchPhase::Complete);
}

#[test]
fn a_failure_stores_nothing() {
    let (fetch, _) = DayFetch::<u32>::begin(range(), true, false);
    let (fetch, _) = fetch.on_page(vec![1, 2, 3], "first".to_string());
    let (fetch, action) = fetch.on_failure();
    assert!(matches!(action, FetchAction::Abort { cause: FetchError::Transport }));
    assert_eq!(fetch.phase(), FetchPhase::Failed(FetchError::Transport));
    assert_eq!(fetch.records_held(), 0);
    let (fetch, action) = fetch.on_page(Vec::new(), "c".to_string());
    assert!(matches!(action, FetchAction::Idle));
    assert_eq!(fetch.phase(), FetchPhase::Failed(FetchError::Transport));
}
