use crate_downloader::{
    generate_crate_download_path, generate_crate_url, identify_new_crates, is_blank_line, is_not_config_file,
    is_not_hidden, parse_path, parse_thread_size, plan_downloads, should_visit, Crate,
    LineOutcome,
};

fn parsed(name: &str, version: &str, present: bool) -> LineOutcome {
    LineOutcome::Parsed { record: Crate::new(name, version), present }
}

#[test]
fn url_follows_template() {
    let c = Crate::new("foo", "1.0.0");
    assert_eq!(
        generate_crate_url(&c, "https://crates.io/api/v1/crates"),
        "https://crates.io/api/v1/crates/foo/1.0.0/download"
    );
}

#[test]
fn download_path_follows_template() {
    let c = Crate::new("serde-json", "0.2.1-beta");
    assert_eq!(generate_crate_download_path(&c, "/srv/mirror"), "/srv/mirror/serde-json-0.2.1-beta.crate");
}

#[test]
fn thread_size_in_range_is_accepted() {
    assert_eq!(parse_thread_size("1"), Ok(1));
    assert_eq!(parse_thread_size("25"), Ok(25));
    assert_eq!(parse_thread_size("50"), Ok(50));
    assert_eq!(parse_thread_size("+7"), Ok(7));
    assert_eq!(parse_thread_size("007"), Ok(7));
}

#[test]
fn thread_size_out_of_range_is_refused() {
    let msg = "Expected value in range 1-50";
    assert_eq!(parse_thread_size("0"), Err(msg));
    assert_eq!(parse_thread_size("51"), Err(msg));
    assert_eq!(parse_thread_size("256"), Err(msg));
    assert_eq!(parse_thread_size("99999999999999999999999"), Err(msg));
}

#[test]
fn thread_size_not_numeric_is_refused() {
    let msg = "Expected value in range 1-50";
    assert_eq!(parse_thread_size(""), Err(msg));
    assert_eq!(parse_thread_size("+"), Err(msg));
    assert_eq!(parse_thread_size("-5"), Err(msg));
    assert_eq!(parse_thread_size(" 5"), Err(msg));
    assert_eq!(parse_thread_size("1x"), Err(msg));
    assert_eq!(parse_thread_size("é"), Err(msg));
}

#[test]
fn path_must_exist() {
    assert_eq!(parse_path("/tmp/index", true), Ok("/tmp/index".to_string()));
    assert_eq!(parse_path("/tmp/none", false), Err("Value must be an existing path"));
}

#[test]
fn hidden_entries_are_not_visited() {
    assert!(!is_not_hidden(b".git"));
    assert!(!is_not_hidden(b"."));
    assert!(is_not_hidden(b"se"));
    assert!(is_not_hidden(b"a.b"));
    assert!(is_not_hidden(b""));
    assert!(is_not_hidden(b"\xffabc"));
    assert!(!should_visit(1, b".github"));
    assert!(!should_visit(3, b".hidden"));
}

#[test]
fn config_file_is_not_visited() {
    assert!(!is_not_config_file(b"config.json"));
    assert!(is_not_config_file(b"config.jso"));
    assert!(is_not_config_file(b"config.json5"));
    assert!(is_not_config_file(b"Config.json"));
    assert!(is_not_config_file(b"serde"));
    assert!(is_not_config_file(b"\xffabc"));
    assert!(!should_visit(1, b"config.json"));
    assert!(!should_visit(2, b"config.json"));
    assert!(should_visit(1, b"serde_json"));
}

#[test]
fn names_that_are_not_text_are_visited() {
    assert!(should_visit(1, b"\xffabc"));
    assert!(should_visit(2, &[0x80, 0x2e, 0xfe]));
}

#[test]
fn root_of_walk_is_always_visited() {
    assert!(should_visit(0, b"."));
    assert!(should_visit(0, b".index"));
    assert!(should_visit(0, b"config.json"));
}

#[test]
fn blank_lines_are_recognised() {
    assert!(is_blank_line(""));
    assert!(is_blank_line(" \t\r"));
    assert!(!is_blank_line(" x "));
    assert!(!is_blank_line("{}"));
    assert!(!is_blank_line("\u{a0}"));
}

#[test]
fn blank_lines_are_neither_records_nor_malformed() {
    let lines = vec![LineOutcome::Blank, parsed("a", "1.0.0", false), LineOutcome::Blank];
    let report = identify_new_crates(&lines);
    assert_eq!(report.missing.len(), 1);
    assert_eq!(report.malformed, 0);
}

#[test]
fn only_absent_archives_are_missing() {
    let lines = vec![parsed("a", "1.0.0", false), parsed("b", "2.0.0", true), parsed("c", "0.1.0", false)];
    let report = identify_new_crates(&lines);
    let got: Vec<(String, String)> =
        report.missing.iter().map(|c| (c.name.clone(), c.version.clone())).collect();
    assert_eq!(got, vec![("a".to_string(), "1.0.0".to_string()), ("c".to_string(), "0.1.0".to_string())]);
    assert_eq!(report.malformed, 0);
}

#[test]
fn malformed_lines_do_not_stop_the_scan() {
    let lines = vec![
        LineOutcome::Malformed,
        parsed("a", "1.0.0", false),
        LineOutcome::Malformed,
        parsed("b", "2.0.0", false),
    ];
    let report = identify_new_crates(&lines);
    let names: Vec<&str> = report.missing.iter().map(|c| c.name.as_str()).collect();
    assert_eq!(names, vec!["a", "b"]);
    assert_eq!(report.malformed, 2);
}

#[test]
fn empty_index_misses_nothing() {
    let report = identify_new_crates(&Vec::new());
    assert!(report.missing.is_empty());
    assert_eq!(report.malformed, 0);
}

#[test]
fn second_scan_after_download_is_empty() {
    let first = vec![parsed("a", "1.0.0", false), parsed("b", "2.0.0", true)];
    assert_eq!(identify_new_crates(&first).missing.len(), 1);
    let second = vec![parsed("a", "1.0.0", true), parsed("b", "2.0.0", true)];
    let report = identify_new_crates(&second);
    assert!(report.missing.is_empty());
    assert!(plan_downloads(&report.missing, "/dl", "https://x").is_empty());
}

#[test]
fn plan_keeps_each_job_to_its_record() {
    let crates = vec![Crate::new("x", "1.0.0"), Crate::new("y", "0.2.0"), Crate::new("z", "3.1.4")];
    let jobs = plan_downloads(&crates, "/dl", "https://reg/api");
    assert_eq!(jobs.len(), 3);
    assert_eq!(jobs[1].url, "https://reg/api/y/0.2.0/download");
    assert_eq!(jobs[1].path, "/dl/y-0.2.0.crate");
    assert_eq!(jobs[2].record.name, "z");
    assert_eq!(jobs[2].path, "/dl/z-3.1.4.crate");
}

#[test]
fn scenario_one_missing_record() {
    let report = identify_new_crates(&vec![parsed("foo", "1.0.0", false)]);
    let jobs = plan_downloads(&report.missing, "/dl", "https://base");
    assert_eq!(jobs.len(), 1);
    assert_eq!(jobs[0].url, "https://base/foo/1.0.0/download");
    assert_eq!(jobs[0].path, "/dl/foo-1.0.0.crate");
    assert_eq!(report.missing.len(), 1);
}

#[test]
fn scenario_record_already_present() {
    let report = identify_new_crates(&vec![parsed("foo", "1.0.0", true)]);
    let jobs = plan_downloads(&report.missing, "/dl", "https://base");
    assert_eq!(jobs.len(), 0);
    assert_eq!(report.missing.len(), 0);
}
