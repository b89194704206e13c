use std::collections::HashSet;

use cmux_sidebar_ports::ports::{
    lsof_failure_message, lsof_start_error, mark_new_ports, parse_lsof, parse_lsof_result,
    parse_port, port_set, sort_rows, LaunchError, LsofOutput, PortRow,
};

const HEADER: &str = "COMMAND   PID USER   FD   TYPE DEVICE SIZE/OFF NODE NAME\n";

fn row(port: u16, process: &str, pid: u32, is_new: bool) -> PortRow {
    PortRow {
        port,
        process: process.to_string(),
        pid,
        is_new,
    }
}

#[test]
fn port_is_what_follows_the_last_colon() {
    assert_eq!(parse_port("127.0.0.1:8123"), Some(8123));
    assert_eq!(parse_port("[::1]:443"), Some(443));
    assert_eq!(parse_port("*:3000"), Some(3000));
    assert_eq!(parse_port("8080"), Some(8080));
    assert_eq!(parse_port("*:+80"), Some(80));
    assert_eq!(parse_port("*:0080"), Some(80));
    assert_eq!(parse_port("*:65535"), Some(65535));
}

#[test]
fn port_rejects_what_is_not_a_u16() {
    assert_eq!(parse_port("host:"), None);
    assert_eq!(parse_port("*:65536"), None);
    assert_eq!(parse_port("*:-1"), None);
    assert_eq!(parse_port("*:+"), None);
    assert_eq!(parse_port("*:80x"), None);
    assert_eq!(parse_port("*:８０"), None);
}

#[test]
fn parse_of_header_alone_is_empty() {
    assert_eq!(parse_lsof(HEADER).unwrap(), Vec::<PortRow>::new());
    assert_eq!(parse_lsof("").unwrap(), Vec::<PortRow>::new());
}

#[test]
fn parse_skips_lines_that_describe_no_socket() {
    let output = format!(
        "{HEADER}\
short line\n\
node 431 alice 21u IPv6 TCP *:3000 (LISTEN)\n\
node abc alice 21u IPv6 0xbeef 0t0 TCP *:3000 (LISTEN)\n\
node 431 alice 21u IPv6 0xbeef 0t0 TCP\n\
node 431 alice 21u IPv6 0xbeef 0t0 UDP *:53\n\
node 431 alice 21u IPv6 0xbeef 0t0 TCP *:http (LISTEN)\n\
ok 7 alice 21u IPv6 0xbeef 0t0 TCP *:22 (LISTEN)\n"
    );
    let rows = parse_lsof(&output).unwrap();
    assert_eq!(rows, vec![row(22, "ok", 7, false)]);
}

#[test]
fn parse_reads_crlf_tabs_and_unicode_spaces() {
    let output = "COMMAND PID\r\nweb\tserver 55 bob 3u IPv4 0x1 0t0 TCP\t*:8000 (LISTEN)\r\n\
a\u{a0}b 9 bob 3u IPv4 0x1 0t0 TCP 127.0.0.1:9000 (LISTEN)";
    let rows = parse_lsof(output).unwrap();
    assert_eq!(
        rows,
        vec![row(8000, "web server", 55, false), row(9000, "a b", 9, false)]
    );
}

#[test]
fn parse_keeps_the_first_line_of_each_pid_and_port() {
    let output = format!(
        "{HEADER}\
first 10 u 1u IPv4 0x1 0t0 TCP *:5000 (LISTEN)\n\
second 10 u 2u IPv6 0x2 0t0 TCP [::]:5000 (LISTEN)\n\
other 11 u 2u IPv6 0x2 0t0 TCP [::]:5000 (LISTEN)\n"
    );
    let rows = parse_lsof(&output).unwrap();
    assert_eq!(
        rows,
        vec![row(5000, "first", 10, false), row(5000, "other", 11, false)]
    );
}

#[test]
fn sort_keeps_rows_that_compare_equal_in_order() {
    let mut rows = vec![
        row(80, "b", 1, true),
        row(80, "a", 2, false),
        row(80, "b", 1, false),
        row(22, "z", 9, false),
    ];
    sort_rows(&mut rows);
    assert_eq!(
        rows,
        vec![
            row(22, "z", 9, false),
            row(80, "a", 2, false),
            row(80, "b", 1, true),
            row(80, "b", 1, false),
        ]
    );
}

#[test]
fn sort_orders_names_by_code_point() {
    let mut rows = vec![
        row(1, "b", 1, false),
        row(1, "B", 1, false),
        row(1, "é", 1, false),
        row(1, "ab", 1, false),
        row(1, "a", 1, false),
    ];
    sort_rows(&mut rows);
    let names: Vec<&str> = rows.iter().map(|r| r.process.as_str()).collect();
    assert_eq!(names, ["B", "a", "ab", "b", "é"]);
}

#[test]
fn sorting_twice_changes_nothing() {
    let mut rows = vec![row(9, "x", 3, false), row(1, "y", 2, true), row(9, "a", 1, false)];
    sort_rows(&mut rows);
    let once = rows.clone();
    sort_rows(&mut rows);
    assert_eq!(rows, once);
}

#[test]
fn port_set_holds_each_listed_port() {
    let rows = vec![row(80, "a", 1, false), row(443, "b", 2, false), row(80, "c", 3, false)];
    assert_eq!(port_set(&rows), HashSet::from([80, 443]));
    assert_eq!(port_set(&[]), HashSet::new());
}

#[test]
fn marking_against_own_ports_marks_nothing() {
    let mut rows = vec![row(80, "a", 1, true), row(443, "b", 2, true)];
    let own = port_set(&rows);
    mark_new_ports(&mut rows, &own);
    assert!(rows.iter().all(|r| !r.is_new));
    mark_new_ports(&mut rows, &HashSet::new());
    assert!(rows.iter().all(|r| r.is_new));
}

#[test]
fn label_and_dev_port_range() {
    assert_eq!(row(0, "Google Ch", 4294967295, false).label(), ":0  Google Ch  4294967295");
    assert!(!row(2999, "a", 1, false).is_common_dev_port());
    assert!(row(3000, "a", 1, false).is_common_dev_port());
    assert!(row(9999, "a", 1, false).is_common_dev_port());
    assert!(!row(10000, "a", 1, false).is_common_dev_port());
}

#[test]
fn start_errors_name_the_cause() {
    assert_eq!(
        lsof_start_error(LaunchError {
            not_found: true,
            message: "No such file or directory (os error 2)".to_string(),
        }),
        "lsof is required to list listening ports; install lsof and press r to retry"
    );
    assert_eq!(
        lsof_start_error(LaunchError {
            not_found: false,
            message: "Permission denied (os error 13)".to_string(),
        }),
        "could not start lsof: Permission denied (os error 13)"
    );
}

#[test]
fn failed_run_with_diagnostic_is_an_error() {
    let result = parse_lsof_result(LsofOutput {
        success: false,
        stdout: Vec::new(),
        stderr: b"\n  lsof: WARNING: boom\t\n".to_vec(),
    });
    assert_eq!(result, Err("lsof failed: lsof: WARNING: boom".to_string()));
    assert_eq!(lsof_failure_message(" \u{3000}x y\u{2029}"), "lsof failed: x y");
}

#[test]
fn failed_run_without_diagnostic_means_no_ports() {
    let result = parse_lsof_result(LsofOutput {
        success: false,
        stdout: Vec::new(),
        stderr: Vec::new(),
    });
    assert_eq!(result, Ok(Vec::new()));
}

#[test]
fn successful_run_parses_standard_output() {
    let stdout = format!("{HEADER}srv 12 u 1u IPv4 0x1 0t0 TCP *:8443 (LISTEN)\n");
    let result = parse_lsof_result(LsofOutput {
        success: true,
        stdout: stdout.into_bytes(),
        stderr: b"lsof: WARNING: can't stat() fuse".to_vec(),
    });
    assert_eq!(result, Ok(vec![row(8443, "srv", 12, false)]));
}

#[test]
fn invalid_utf8_is_decoded_with_replacement_characters() {
    let result = parse_lsof_result(LsofOutput {
        success: false,
        stdout: Vec::new(),
        stderr: vec![0xff, b'x'],
    });
    assert_eq!(result, Err("lsof failed: \u{fffd}x".to_string()));
    let mut stdout = HEADER.as_bytes().to_vec();
    stdout.extend_from_slice(b"a\xffb 5 u 1u IPv4 0x1 0t0 TCP *:81 (LISTEN)\n");
    let result = parse_lsof_result(LsofOutput {
        success: true,
        stdout,
        stderr: Vec::new(),
    });
    assert_eq!(result, Ok(vec![row(81, "a\u{fffd}b", 5, false)]));
}

#[test]
fn printed_ports_parse_back() {
    for port in [0u16, 1, 9, 10, 80, 443, 9999, 65535] {
        let label = row(port, "p", 1, false).label();
        let first = label.split_whitespace().next().unwrap();
        assert_eq!(parse_port(first), Some(port));
    }
}

#[test]
fn sorting_keeps_every_row() {
    let rows = vec![
        row(5, "e", 1, false),
        row(1, "a", 2, true),
        row(5, "e", 1, true),
        row(3, "c", 3, false),
        row(1, "a", 1, false),
    ];
    let mut sorted = rows.clone();
    sort_rows(&mut sorted);
    assert_eq!(sorted.len(), rows.len());
    for r in &rows {
        let before = rows.iter().filter(|x| *x == r).count();
        let after = sorted.iter().filter(|x| *x == r).count();
        assert_eq!(before, after);
    }
    for pair in sorted.windows(2) {
        let (a, b) = (&pair[0], &pair[1]);
        assert!((a.port, &a.process, a.pid) <= (b.port, &b.process, b.pid));
    }
}
