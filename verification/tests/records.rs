use sys_tools::component_service::{get_system_memory, JoltOutput, MemoryResponse, SystemInformation, SystemMemory};
use sys_tools::log_service::{
    default_event_data_value, default_value, default_vec_value, event_mentions, read_win_sys_log,
    Data, EventData,
};
use sys_tools::progress::{
    ProgressAction, ProgressEvent, ScanProgress, DRAIN_TIMEOUT_SECS, REPORT_INTERVAL_SECS,
};
use sys_tools::table_builder::{build_table, has_escape, table_of, MagicTable};
use sys_tools::text::{digit_text, i32_text, u64_text};

fn process() -> JoltOutput {
    JoltOutput {
        user: "root".to_string(),
        pid: "1".to_string(),
        cpu: "0.3".to_string(),
        mem: 12,
        vsz: "168000".to_string(),
        rss: "11000".to_string(),
        tty: "?".to_string(),
        stat: "Ss".to_string(),
        start: "10:02".to_string(),
        time: "0:01".to_string(),
        command: "/sbin/init".to_string(),
    }
}

fn event(values: &[&str]) -> EventData {
    EventData {
        data: values.iter().map(|v| Data { name: "row".to_string(), value: v.to_string() }).collect(),
    }
}

#[test]
fn digits_and_numbers_as_text() {
    assert_eq!(digit_text(0), "0");
    assert_eq!(digit_text(9), "9");
    assert_eq!(u64_text(0), "0");
    assert_eq!(u64_text(7), "7");
    assert_eq!(u64_text(10), "10");
    assert_eq!(u64_text(1_234_567_890), "1234567890");
    assert_eq!(u64_text(u64::MAX), u64::MAX.to_string());
}

#[test]
fn signed_numbers_as_text() {
    assert_eq!(i32_text(0), "0");
    assert_eq!(i32_text(42), "42");
    assert_eq!(i32_text(-1), "-1");
    assert_eq!(i32_text(i32::MAX), "2147483647");
    assert_eq!(i32_text(i32::MIN), "-2147483648");
}

#[test]
fn process_rows_name_every_field() {
    let rows = process().build_table();
    let expected: Vec<(String, String)> = [
        ("User", "root"),
        ("PID", "1"),
        ("%CPU", "0.3"),
        ("%MEM", "12"),
        ("VSZ", "168000"),
        ("RSS", "11000"),
        ("TTY", "?"),
        ("STAT", "Ss"),
        ("START", "10:02"),
        ("TIME", "0:01"),
        ("COMMAND", "/sbin/init"),
    ]
    .iter()
    .map(|(n, v)| (n.to_string(), v.to_string()))
    .collect();
    assert_eq!(rows, expected);
}

#[test]
fn table_has_one_row_of_two_cells_for_each_field() {
    let table = build_table(process()).unwrap();
    assert_eq!(table.len(), 11);
    let first = table.get_row(0).unwrap();
    assert_eq!(first.len(), 2);
    assert_eq!(first.get_cell(0).unwrap().get_content(), "User");
    assert_eq!(first.get_cell(1).unwrap().get_content(), "root");
    let mem = table.get_row(3).unwrap();
    assert_eq!(mem.get_cell(0).unwrap().get_content(), "%MEM");
    assert_eq!(mem.get_cell(1).unwrap().get_content(), "12");
    let last = table.get_row(10).unwrap();
    assert_eq!(last.get_cell(0).unwrap().get_content(), "COMMAND");
    assert_eq!(last.get_cell(1).unwrap().get_content(), "/sbin/init");
}

#[test]
fn table_of_rows_keeps_their_order_and_an_empty_list_gives_an_empty_table() {
    let rows = vec![("b".to_string(), "2".to_string()), ("a".to_string(), "1".to_string())];
    let table = table_of(&rows).unwrap();
    assert_eq!(table.len(), 2);
    assert_eq!(table.get_row(0).unwrap().get_cell(0).unwrap().get_content(), "b");
    assert_eq!(table.get_row(1).unwrap().get_cell(1).unwrap().get_content(), "1");
    assert!(table_of(&Vec::new()).unwrap().is_empty());
}

#[test]
fn memory_report_is_in_whole_megabytes() {
    let report = get_system_memory(8 * 1024 * 1024 * 1024, 1024 * 1024 + 1, 1024 * 1024 - 1, 0);
    assert_eq!(
        report,
        SystemMemory { total_memory: 8192, used_memory: 1, total_swap: 0, used_swap: 0 }
    );
}

#[test]
fn plain_records_hold_their_fields() {
    let info = SystemInformation {
        name: "Ubuntu".to_string(),
        os_version: "22.04".to_string(),
        host_name: "box".to_string(),
        uptime: 100,
        total_cpus: 8,
        total_memory: 16,
        cpu_arch: "x86_64".to_string(),
    };
    assert_eq!(info.clone(), info);
    let memory = MemoryResponse { free_memory: 5, total_memory: 9 };
    assert_eq!(memory.free_memory, 5);
    assert_eq!(memory.total_memory, 9);
}

#[test]
fn defaults_of_the_event_log() {
    assert_eq!(default_value(), "");
    let rows = default_vec_value();
    assert_eq!(rows, vec![Data { name: "No Data".to_string(), value: "No Data".to_string() }]);
    assert_eq!(default_event_data_value(), EventData { data: rows });
}

#[test]
fn event_mentions_a_term_that_some_value_holds() {
    let e = event(&["disk failure on sda", "code 7"]);
    assert!(event_mentions(&e, "failure"));
    assert!(event_mentions(&e, "code"));
    assert!(!event_mentions(&e, "row"));
    assert!(!event_mentions(&e, "Failure"));
    assert!(!event_mentions(&event(&[]), ""));
    assert!(event_mentions(&event(&[""]), ""));
}

#[test]
fn log_search_picks_each_matching_event_once_in_order() {
    let events = vec![
        event(&["boot ok"]),
        event(&["disk error", "disk error again"]),
        event(&[]),
        event(&["net up", "late disk error"]),
        default_event_data_value(),
    ];
    assert_eq!(read_win_sys_log(&events, "disk error"), vec![1, 3]);
    assert_eq!(read_win_sys_log(&events, "No Data"), vec![4]);
    assert_eq!(read_win_sys_log(&events, "absent"), Vec::<usize>::new());
    assert_eq!(read_win_sys_log(&Vec::new(), "x"), Vec::<usize>::new());
}

#[test]
fn progress_adds_reports_and_resets() {
    assert_eq!(REPORT_INTERVAL_SECS, 2);
    assert_eq!(DRAIN_TIMEOUT_SECS, 5);
    let mut progress = ScanProgress::new();
    assert_eq!(progress.total, 0);
    progress.add(1);
    progress.add(41);
    assert_eq!(progress.on_event(ProgressEvent::Tick), ProgressAction::Report(42));
    assert_eq!(progress.total, 42);
    assert_eq!(progress.on_event(ProgressEvent::Stopped), ProgressAction::Finish);
    assert_eq!(progress.total, 0);
    assert_eq!(progress.on_event(ProgressEvent::Tick), ProgressAction::Report(0));
}

#[test]
fn escape_characters_are_found() {
    assert!(has_escape("\u{1b}"));
    assert!(has_escape("a\u{1b}[31mred"));
    assert!(has_escape("tail\u{1b}"));
    assert!(!has_escape(""));
    assert!(!has_escape("plain [31m text"));
    assert!(!has_escape("\u{644}\u{627}\u{644}\u{627}"));
}

#[test]
fn no_table_is_made_of_texts_with_an_escape_character() {
    let bad = "\u{1b}[\u{644}\u{627}\u{644}\u{627}".to_string();
    let in_value = vec![("a".to_string(), "1".to_string()), ("b".to_string(), bad.clone())];
    assert!(table_of(&in_value).is_none());
    let in_name = vec![(bad.clone(), "1".to_string())];
    assert!(table_of(&in_name).is_none());
    let mut listed = process();
    listed.command = bad;
    assert!(build_table(listed).is_none());
    let mut coloured = process();
    coloured.user = "\u{1b}[31mroot\u{1b}[0m".to_string();
    assert!(build_table(coloured).is_none());
}

#[test]
fn a_table_is_made_of_texts_in_any_script_without_an_escape_character() {
    let rows = vec![
        ("\u{644}\u{627}\u{644}\u{627}".to_string(), "[\u{644}\u{627}".to_string()),
        ("日本語".to_string(), "two\nlines".to_string()),
        ("".to_string(), "".to_string()),
    ];
    let table = table_of(&rows).unwrap();
    assert_eq!(table.len(), 3);
    assert_eq!(table.get_row(0).unwrap().get_cell(0).unwrap().get_content(), "\u{644}\u{627}\u{644}\u{627}");
    assert_eq!(table.get_row(1).unwrap().get_cell(1).unwrap().get_content(), "two\nlines");
}
