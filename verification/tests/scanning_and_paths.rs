use fossilize_status::paths::{get_cache_dir, get_cache_filename};
use fossilize_status::scanner::scan_process_table;

#[test]
fn scenario_no_matching_process() {
    // No line names the replay tool: the scan alone decides the outcome, and
    // nothing else need happen.
    let table = "UID PID CMD\nroot 1 /sbin/init\nuser 42 steam steamapps/common/game\n";
    assert_eq!(scan_process_table(table), None);
}

#[test]
fn scan_empty_table() {
    assert_eq!(scan_process_table(""), None);
}

#[test]
fn scan_extracts_identifier() {
    let table = "user 7 fossilize_replay /home/u/.steam/steamapps/shadercache/220/fozpipelinesv6\n";
    assert_eq!(scan_process_table(table).as_deref(), Some("220"));
}

#[test]
fn scan_tool_name_is_case_insensitive() {
    let table = "user 7 FOSSILIZE_REPLAY steamapps/shadercache/400/foz\n";
    assert_eq!(scan_process_table(table).as_deref(), Some("400"));
}

#[test]
fn scan_needs_both_tool_and_marker() {
    assert_eq!(
        scan_process_table("user 7 fossilize_replay /tmp/other\n"),
        None
    );
    assert_eq!(
        scan_process_table("user 7 other_tool steamapps/shadercache/220/x\n"),
        None
    );
}

#[test]
fn scan_takes_first_matching_line() {
    let table = "x fossilize_replay steamapps/shadercache/220/a\n\
                 x fossilize_replay steamapps/shadercache/400/b\n";
    assert_eq!(scan_process_table(table).as_deref(), Some("220"));
}

#[test]
fn scan_takes_first_marker_in_line() {
    let table = "fossilize_replay steamapps/shadercache/220/steamapps/shadercache/400/\n";
    assert_eq!(scan_process_table(table).as_deref(), Some("220"));
}

#[test]
fn scan_identifier_may_run_to_line_end() {
    let table = "fossilize_replay steamapps/shadercache/9001";
    assert_eq!(scan_process_table(table).as_deref(), Some("9001"));
}

#[test]
fn scan_identifier_may_be_empty() {
    let table = "fossilize_replay steamapps/shadercache/\n";
    assert_eq!(scan_process_table(table).as_deref(), Some(""));
}

#[test]
fn cache_dir_prefers_configured_root() {
    assert_eq!(
        get_cache_dir(Some("/xdg".to_string()), Some("/home/u".to_string())),
        "/xdg/fossilize_status"
    );
}

#[test]
fn cache_dir_falls_back_to_home() {
    assert_eq!(
        get_cache_dir(None, Some("/home/u".to_string())),
        "/home/u/.cache/fossilize_status"
    );
}

#[test]
fn cache_dir_without_any_root() {
    assert_eq!(get_cache_dir(None, None), "~/.cache/fossilize_status");
}

#[test]
fn cache_filename_under_cache_dir() {
    assert_eq!(
        get_cache_filename(Some("/xdg".to_string()), None),
        "/xdg/fossilize_status/steam_applist.tsv"
    );
    assert_eq!(
        get_cache_filename(None, Some("/home/u".to_string())),
        "/home/u/.cache/fossilize_status/steam_applist.tsv"
    );
}
