use crucible::history::{
    civil_from_days, data_dir, fmt_time, history_dir, history_id, id_unix_time, join_path,
    entry_unix_time, load_error, newest_first, record_id, record_id_from, run_file, slug,
};

#[test]
fn fmt_time_values() {
    assert_eq!(fmt_time(0), "1970-01-01 00:00 UTC");
    assert_eq!(fmt_time(86399), "1970-01-01 23:59 UTC");
    assert_eq!(fmt_time(951782400), "2000-02-29 00:00 UTC");
    assert_eq!(fmt_time(1700000000), "2023-11-14 22:13 UTC");
    assert_eq!(fmt_time(4102444800), "2100-01-01 00:00 UTC");
    assert_eq!(fmt_time(253402300799), "9999-12-31 23:59 UTC");
}

#[test]
fn civil_dates() {
    assert_eq!(civil_from_days(0), (1970, 1, 1));
    assert_eq!(civil_from_days(59), (1970, 3, 1));
    assert_eq!(civil_from_days(11016), (2000, 2, 29));
    assert_eq!(civil_from_days(10957), (2000, 1, 1));
}

#[test]
fn data_and_history_dirs() {
    assert_eq!(data_dir(Some("/x"), Some("/home/u")), "/x/crucible");
    assert_eq!(data_dir(Some("/x/"), Some("/home/u")), "/x/crucible");
    assert_eq!(data_dir(Some(""), Some("/home/u")), "/home/u/.local/share/crucible");
    assert_eq!(data_dir(None, None), "./.local/share/crucible");
    assert_eq!(history_dir("/d"), "/d/history");
    assert_eq!(join_path("", "a"), "a");
    assert_eq!(run_file("/d/history", "1-x"), "/d/history/1-x.json");
}

#[test]
fn slugs() {
    assert_eq!(slug("Intel(R) Core(TM) i7"), "intel-r--core-tm--i7");
    assert_eq!(slug("---"), "host");
    assert_eq!(slug(""), "host");
    assert_eq!(slug("AMD-Ryzen-9"), "amd-ryzen-9");
    assert_eq!(slug("Ärger über"), "rger--ber");
}

#[test]
fn slug_is_file_name_safe() {
    for s in ["", "-a-", "Z z", "ÿ", "x--Y", "12 34", "(((", "a/b\\c"] {
        let t = slug(s);
        assert!(!t.is_empty());
        assert!(t.chars().all(|c| c.is_ascii_digit() || c.is_ascii_lowercase() || c == '-'));
        assert!(!t.starts_with('-') && !t.ends_with('-'));
    }
}

#[test]
fn history_ids_round_trip() {
    let id = history_id(1700000000, "AMD Ryzen 9 7950X 16-Core Processor");
    assert_eq!(id, "1700000000-amd-ryzen-9");
    assert_eq!(id_unix_time(&id), Some(1700000000));
    assert_eq!(history_id(5, ""), "5-host");
    assert_eq!(id_unix_time("123"), Some(123));
    assert_eq!(id_unix_time("abc-1"), None);
    assert_eq!(id_unix_time(""), None);
    for t in [0u64, 1, 999, 1234567890, u64::MAX] {
        assert_eq!(id_unix_time(&history_id(t, "Some CPU model")), Some(t));
    }
}

#[test]
fn record_ids_from_results_json() {
    let j = r#"{"sysinfo":{"cpu_model":"Intel Core i5-8250U CPU","ram_mib":8000},"cpu":null}"#;
    assert_eq!(record_id(j, 42), Ok("42-intel-core-i5-8250u".to_string()));
    assert_eq!(record_id(r#"{"cpu":{}}"#, 7), Ok("7-host".to_string()));
    let bad = "not json";
    let want = serde_json::from_str::<serde_json::Value>(bad).unwrap_err().to_string();
    assert_eq!(record_id(bad, 1), Err(want));
}

#[test]
fn load_errors() {
    assert_eq!(load_error("x", "gone"), "no such run 'x' (gone)");
}

#[test]
fn record_ids_from_read_parts() {
    assert_eq!(record_id_from(None, Some("Apple M2 Max chip"), 9), Ok("9-apple-m2-max".to_string()));
    assert_eq!(record_id_from(None, None, 9), Ok("9-host".to_string()));
    assert_eq!(record_id_from(Some("bad"), Some("x"), 9), Err("bad".to_string()));
}

#[test]
fn listing_newest_first_and_stable() {
    assert_eq!(newest_first(&vec![]), Vec::<usize>::new());
    assert_eq!(newest_first(&vec![5, 9, 5, 1, 9]), vec![1, 4, 0, 2, 3]);
    let times = vec![3u64, 3, 3];
    assert_eq!(newest_first(&times), vec![0, 1, 2]);
    assert_eq!(entry_unix_time("1700000000-x", Some(5)), 1700000000);
    assert_eq!(entry_unix_time("run-x", Some(5)), 5);
    assert_eq!(entry_unix_time("run-x", None), 0);
}
