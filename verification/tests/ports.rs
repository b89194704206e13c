use std::collections::HashSet;

use cmux_sidebar_ports::ports::{mark_new_ports, parse_lsof, sort_rows, PortRow};

const LSOF_FIXTURE: &str = r#"COMMAND   PID USER   FD   TYPE DEVICE SIZE/OFF NODE NAME
node      431 alice  21u  IPv6 0xbeef      0t0  TCP *:3000 (LISTEN)
python3   812 alice   4u  IPv4 0xfeed      0t0  TCP 127.0.0.1:8123 (LISTEN)
node      431 alice  22u  IPv4 0xcafe      0t0  TCP 0.0.0.0:3000 (LISTEN)
server    900 alice   8u  IPv6 0xabcd      0t0  TCP [::1]:443 (LISTEN)
"#;

#[test]
fn parses_commands_with_spaces() {
    // lsof truncates COMMAND to 9 chars but preserves inner spaces,
    // shifting every whitespace-split column.
    let output = "COMMAND   PID USER   FD   TYPE DEVICE SIZE/OFF NODE NAME\n\
Google Ch  321 me   45u  IPv4 0xdead      0t0  TCP 127.0.0.1:9222 (LISTEN)\n";
    let rows = parse_lsof(output).unwrap();
    assert_eq!(rows.len(), 1);
    assert_eq!(rows[0].process, "Google Ch");
    assert_eq!(rows[0].pid, 321);
    assert_eq!(rows[0].port, 9222);
}

#[test]
fn parses_ipv4_ipv6_and_deduplicates_pid_port() {
    let rows = parse_lsof(LSOF_FIXTURE).unwrap();
    assert_eq!(rows.len(), 3);
    assert_eq!(rows[0].label(), ":443  server  900");
    assert_eq!(rows[1].label(), ":3000  node  431");
    assert_eq!(rows[2].label(), ":8123  python3  812");
}

#[test]
fn sorts_equal_ports_by_process_then_pid() {
    let mut rows = vec![
        PortRow {
            port: 8080,
            process: "zeta".into(),
            pid: 2,
            is_new: false,
        },
        PortRow {
            port: 3000,
            process: "node".into(),
            pid: 3,
            is_new: false,
        },
        PortRow {
            port: 8080,
            process: "alpha".into(),
            pid: 9,
            is_new: false,
        },
    ];

    sort_rows(&mut rows);
    let labels = rows.iter().map(PortRow::label).collect::<Vec<_>>();
    assert_eq!(
        labels,
        [":3000  node  3", ":8080  alpha  9", ":8080  zeta  2"]
    );
}

#[test]
fn marks_only_ports_absent_from_previous_tick() {
    let previous = HashSet::from([3000, 8123]);
    let mut rows = parse_lsof(LSOF_FIXTURE).unwrap();
    mark_new_ports(&mut rows, &previous);

    assert!(rows.iter().find(|row| row.port == 443).unwrap().is_new);
    assert!(!rows.iter().find(|row| row.port == 3000).unwrap().is_new);
    assert!(!rows.iter().find(|row| row.port == 8123).unwrap().is_new);
}
