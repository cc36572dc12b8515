use winproc::errors::ProcessError;
use winproc::hierarchy::ParentMap;
use winproc::process::build_process_info;
use winproc::snapshot::{
    NameRecord, parse_parent_map, parent_map_from_output, parse_name_records,
    filter_pids_by_name, lookup_name, pids_from_output,
};

const PARENT_LISTING: &str = "\r\nNode,ParentProcessId,ProcessId\r\nHOST,4,368\r\nHOST,368,512\r\nHOST,512,1024\r\n";

#[test]
fn parse_parent_listing() {
    let map = parse_parent_map(PARENT_LISTING);
    assert_eq!(map.parent_of(368), Some(4));
    assert_eq!(map.parent_of(512), Some(368));
    assert_eq!(map.parent_of(1024), Some(512));
    assert_eq!(map.parent_of(9999), None);
}

#[test]
fn parse_skips_malformed_rows() {
    let text = "\r\nNode,ParentProcessId,ProcessId\r\nHOST,abc,12\r\nHOST,4\r\ngarbage\r\nHOST,7,21\r\n";
    let map = parse_parent_map(text);
    assert!(!map.contains_pid(12), "a row with a bad parent is skipped");
    assert_eq!(map.parent_of(21), Some(7));
}

#[test]
fn parse_skips_zero_pids() {
    let text = "\r\nNode,ParentProcessId,ProcessId\r\nHOST,0,4\r\nHOST,4,0\r\nHOST,4,88\r\n";
    let map = parse_parent_map(text);
    assert!(!map.contains_pid(4), "a zero parent is not a usable link");
    assert!(!map.contains_pid(0));
    assert_eq!(map.parent_of(88), Some(4));
}

#[test]
fn parse_short_listing_is_empty() {
    let map = parse_parent_map("");
    assert!(!map.contains_pid(1));
    let map = parse_parent_map("only one line");
    assert!(!map.contains_pid(1));
}

#[test]
fn snapshot_failure_is_an_error_not_an_empty_map() {
    let result = parent_map_from_output(false, "", "wmic: not recognized");
    match result {
        Err(ProcessError::SnapshotUnavailable(m)) => assert_eq!(m, "wmic: not recognized"),
        other => panic!("expected a snapshot error, got {:?}", other.map(|_| ())),
    }
}

#[test]
fn snapshot_success_parses() {
    let result = parent_map_from_output(true, PARENT_LISTING, "");
    let map = result.expect("a successful listing must parse");
    assert_eq!(map.parent_of(368), Some(4));
}

const NAME_LISTING: &str = "\"smss.exe\",\"368\",\"Services\",\"0\",\"1,024 K\"\r\n\"notepad.exe\",\"512\",\"Console\",\"1\",\"12,040 K\"\r\n\"Notepad.EXE\",\"513\",\"Console\",\"1\",\"9,100 K\"\r\n";

#[test]
fn parse_name_listing() {
    let records = parse_name_records(NAME_LISTING);
    assert_eq!(records.len(), 3);
    assert_eq!(records[0].pid, 368);
    assert_eq!(records[0].name, "smss.exe");
    assert_eq!(records[1].pid, 512);
    assert_eq!(records[1].name, "notepad.exe");
}

#[test]
fn filter_by_name_is_case_insensitive() {
    let records = parse_name_records(NAME_LISTING);
    let pids = filter_pids_by_name(&records, "NOTEPAD.exe");
    assert_eq!(pids, vec![512, 513]);
}

#[test]
fn list_by_name_finds_nothing_without_error() {
    let output = "INFO: No tasks are running which match the specified criteria.";
    let result = pids_from_output(true, output, "", "nonexistent.exe");
    let pids = result.expect("an empty match is not an error");
    assert!(pids.is_empty());
}

#[test]
fn list_by_name_failure_is_an_error() {
    let result = pids_from_output(false, "", "tasklist failed", "x.exe");
    assert!(matches!(result, Err(ProcessError::SnapshotUnavailable(_))));
}

#[test]
fn lookup_last_report_wins() {
    let records = vec![
        NameRecord { pid: 5, name: "old.exe".to_string() },
        NameRecord { pid: 5, name: "new.exe".to_string() },
    ];
    assert_eq!(lookup_name(&records, 5).as_deref(), Some("new.exe"));
    assert_eq!(lookup_name(&records, 6), None);
}

#[test]
fn build_info_fills_every_field() {
    let records = parse_name_records(NAME_LISTING);
    let map = parse_parent_map(PARENT_LISTING);
    let pids = vec![368u32, 9999u32];
    let elevated = vec![false, true];
    let info = build_process_info(&pids, &records, &map, &elevated);
    assert_eq!(info.len(), 2);
    assert_eq!(info[0].pid, 368);
    assert_eq!(info[0].name, "smss.exe");
    assert_eq!(info[0].parent_pid, Some(4));
    assert!(!info[0].is_elevated);
    assert_eq!(info[1].pid, 9999);
    assert_eq!(info[1].name, "PID-9999", "a missing name falls back to a pid placeholder");
    assert_eq!(info[1].parent_pid, None);
    assert!(info[1].is_elevated);
}
