use sys_tools::component_service::{JoltOutput, SystemInformation};
use sys_tools::process_table::{
    digit_of, lines_of, parse_i32, parse_line, scan_running_proccess, split_fields,
    split_fields_by, truncate_command, LineOutcome, COMMAND_BYTES, FIELDS_PER_LINE,
};

const HEADING: &str = "USER         PID %CPU %MEM    VSZ   RSS TTY      STAT  STARTED     TIME COMMAND";

fn record(fields: [&str; 11], mem: i32) -> JoltOutput {
    JoltOutput {
        user: fields[0].to_string(),
        pid: fields[1].to_string(),
        cpu: fields[2].to_string(),
        mem,
        vsz: fields[4].to_string(),
        rss: fields[5].to_string(),
        tty: fields[6].to_string(),
        stat: fields[7].to_string(),
        start: fields[8].to_string(),
        time: fields[9].to_string(),
        command: fields[10].to_string(),
    }
}

#[test]
fn lines_are_what_stands_between_line_feeds() {
    assert_eq!(lines_of("a\nb"), vec!["a", "b"]);
    assert_eq!(lines_of("a\nb\n"), vec!["a", "b", ""]);
    assert_eq!(lines_of(""), vec![""]);
    assert_eq!(lines_of("\n"), vec!["", ""]);
    assert_eq!(lines_of("no feed"), vec!["no feed"]);
    assert_eq!(lines_of("a\n\nb\r\n"), vec!["a", "", "b\r", ""]);
}

#[test]
fn lines_agree_with_the_standard_library() {
    for text in ["", "\n", "a", "a\n", "\na", "ä\n日本\n\nx", "\n\n\n"] {
        let expected: Vec<&str> = text.split("\n").collect();
        assert_eq!(lines_of(text), expected);
    }
}

#[test]
fn fields_are_the_runs_between_white_space() {
    assert_eq!(split_fields("root  1 0.0"), vec!["root", "1", "0.0"]);
    assert_eq!(split_fields("  lead and trail \t "), vec!["lead", "and", "trail"]);
    assert_eq!(split_fields(""), Vec::<String>::new());
    assert_eq!(split_fields(" \t\r "), Vec::<String>::new());
    assert_eq!(split_fields("one"), vec!["one"]);
}

#[test]
fn fields_agree_with_the_standard_library() {
    for text in ["", " ", "a", " a", "a ", "a b", "a\u{a0}b", "a\u{3000}日本 語", "\ta\u{2003}\u{85}b\n", "x  y   z"] {
        let expected: Vec<&str> = text.split_whitespace().collect();
        assert_eq!(split_fields(text), expected, "{:?}", text);
    }
}

#[test]
fn digits_have_their_values() {
    assert_eq!(digit_of('0'), Some(0));
    assert_eq!(digit_of('7'), Some(7));
    assert_eq!(digit_of('9'), Some(9));
    assert_eq!(digit_of('a'), None);
    assert_eq!(digit_of('٣'), None);
}

#[test]
fn numbers_are_read_with_an_optional_sign() {
    assert_eq!(parse_i32("0"), Some(0));
    assert_eq!(parse_i32("12"), Some(12));
    assert_eq!(parse_i32("+12"), Some(12));
    assert_eq!(parse_i32("-12"), Some(-12));
    assert_eq!(parse_i32("007"), Some(7));
    assert_eq!(parse_i32("-0"), Some(0));
    assert_eq!(parse_i32("2147483647"), Some(i32::MAX));
    assert_eq!(parse_i32("-2147483648"), Some(i32::MIN));
    assert_eq!(parse_i32("00000000000000000000000000000000000042"), Some(42));
}

#[test]
fn what_is_no_number_is_not_read() {
    for text in ["", "+", "-", "0.1", "1 ", " 1", "1_000", "--1", "+-1", "1e3", "2147483648", "-2147483649", "99999999999999999999999", "١٢"] {
        assert_eq!(parse_i32(text), None, "{:?}", text);
    }
}

#[test]
fn numbers_agree_with_the_standard_library() {
    for text in ["", "5", "-5", "+5", "+", "-", "05", "2147483647", "2147483648", "-2147483648", "-2147483649", "4294967296", "3.5", "abc", "12a", "a12"] {
        assert_eq!(parse_i32(text), text.parse::<i32>().ok(), "{:?}", text);
    }
}

#[test]
fn commands_are_cut_to_fifteen_bytes() {
    assert_eq!(COMMAND_BYTES, 15);
    assert_eq!(truncate_command("/sbin/init"), Some("/sbin/init".to_string()));
    assert_eq!(truncate_command("exactly15bytes!"), Some("exactly15bytes!".to_string()));
    assert_eq!(truncate_command("/usr/lib/systemd/systemd-journald"), Some("/usr/lib/system".to_string()));
    assert_eq!(truncate_command(""), Some(String::new()));
    assert_eq!(truncate_command("日本語日本語"), Some("日本語日本".to_string()));
}

#[test]
fn a_cut_inside_a_character_is_refused() {
    assert_eq!(truncate_command("ééééééééé"), None);
    assert_eq!(truncate_command("éééééééé"), None);
    assert_eq!(truncate_command("ééééééé"), Some("ééééééé".to_string()));
    assert_eq!(truncate_command("aéééééééé"), Some("aééééééé".to_string()));
}

#[test]
fn a_full_line_gives_a_record() {
    let line = "root           1  0.0  0.1 168000 11000 ?        Ss   10:02:11 00:00:01 /sbin/init splash";
    let expected = record(
        ["root", "1", "0.0", "0.1", "168000", "11000", "?", "Ss", "10:02:11", "00:00:01", "/sbin/init"],
        0,
    );
    assert_eq!(parse_line(line), LineOutcome::Process(expected));
}

#[test]
fn the_memory_share_is_kept_where_it_is_a_whole_number() {
    let line = "u 2 1.5 37 1 2 pts/0 R+ 10:00 0:00 /usr/bin/some-long-command --flag";
    match parse_line(line) {
        LineOutcome::Process(r) => {
            assert_eq!(r.mem, 37);
            assert_eq!(r.command, "/usr/bin/some-l");
            assert_eq!(r.tty, "pts/0");
        }
        other => panic!("{:?}", other),
    }
}

#[test]
fn short_lines_and_uncuttable_commands() {
    assert_eq!(FIELDS_PER_LINE, 11);
    assert_eq!(parse_line(""), LineOutcome::Short);
    assert_eq!(parse_line("a b c d e f g h i j"), LineOutcome::Short);
    assert_eq!(parse_line("a b c d e f g h i j ééééééééé"), LineOutcome::Uncut);
    assert_eq!(parse_line("a b c d e f g h i ééééééééé k"), LineOutcome::Process(record(
        ["a", "b", "c", "d", "e", "f", "g", "h", "i", "ééééééééé", "k"],
        0,
    )));
}

#[test]
fn the_table_is_read_below_its_heading() {
    let output = format!(
        "{}\n{}\n{}\n\n{}\n",
        HEADING,
        "root 1 0.0 0 1 2 ? Ss 10:02 0:01 /sbin/init",
        "short line",
        "www 77 2.5 4 3 4 ? S 10:03 0:09 nginx: worker process",
    );
    let table = scan_running_proccess(&output).unwrap();
    assert_eq!(
        table,
        vec![
            record(["root", "1", "0.0", "0", "1", "2", "?", "Ss", "10:02", "0:01", "/sbin/init"], 0),
            record(["www", "77", "2.5", "4", "3", "4", "?", "S", "10:03", "0:09", "nginx:"], 4),
        ]
    );
}

#[test]
fn the_heading_gives_no_record_even_where_it_is_full() {
    assert_eq!(HEADING.split_whitespace().count(), 11);
    assert_eq!(scan_running_proccess(HEADING), Some(Vec::new()));
    assert_eq!(scan_running_proccess(""), Some(Vec::new()));
    let twice = format!("{}\n{}", HEADING, HEADING);
    assert_eq!(scan_running_proccess(&twice).unwrap().len(), 1);
}

#[test]
fn the_table_is_refused_where_a_command_cannot_be_cut() {
    let output = format!("{}\nu 1 0 0 1 2 ? S 1 2 ok\nu 2 0 0 1 2 ? S 1 2 ééééééééé\n", HEADING);
    assert_eq!(scan_running_proccess(&output), None);
}

#[test]
fn process_text_is_laid_out_line_by_line() {
    let r = record(["root", "1", "0.3", "", "168000", "11000", "?", "Ss", "10:02", "0:01", "/sbin/init"], 12);
    let expected = format!(
        "Effective User Id {} \n 
            Process Id {} \n
            Cpu Usage {} \n
            Memory Usage {} \n
            Virtual Memory Size in KiB{} \n
            Resident Set Size in KiB {} \n
            Controlling Terminal {} \n
            Process State {} \n
            Start Time {} \n
            Cumulative CPU Time {} \n
            Command {} \n",
        r.user, r.pid, r.cpu, r.mem, r.vsz, r.rss, r.tty, r.stat, r.start, r.time, r.command
    );
    assert_eq!(r.to_text(), expected);
    assert!(r.to_text().starts_with("Effective User Id root \n \n            Process Id 1 \n\n"));
}

#[test]
fn host_text_is_laid_out_line_by_line() {
    let info = SystemInformation {
        name: "Ubuntu".to_string(),
        os_version: "22.04".to_string(),
        host_name: "box".to_string(),
        uptime: 86400,
        total_cpus: 8,
        total_memory: 0,
        cpu_arch: "x86_64".to_string(),
    };
    let expected = format!(
        "Name {} \n 
            Os Version {} \n
            Hostname {} \n
            uptime {} \n
            total cpus {} \n
            total memory {} \n
            cpu arch {} \n",
        info.name,
        info.os_version,
        info.host_name,
        info.uptime,
        info.total_cpus,
        info.total_memory,
        info.cpu_arch
    );
    assert_eq!(info.to_text(), expected);
}

#[test]
fn fields_are_cut_where_the_given_marks_say() {
    let marks = |text: &str, sep: char| -> Vec<bool> { text.chars().map(|c| c == sep).collect() };
    assert_eq!(split_fields_by("a,b,,c", &marks("a,b,,c", ',')), vec!["a", "b", "c"]);
    assert_eq!(split_fields_by(",lead,", &marks(",lead,", ',')), vec!["lead"]);
    assert_eq!(split_fields_by("a b", &vec![false, false, false]), vec!["a b"]);
    assert_eq!(split_fields_by("abc", &vec![true, true, true]), Vec::<String>::new());
    assert_eq!(split_fields_by("日本語", &vec![false, true, false]), vec!["日", "語"]);
    assert_eq!(split_fields_by("", &Vec::new()), Vec::<String>::new());
}
