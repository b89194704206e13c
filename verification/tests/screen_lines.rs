use cmux_sidebar_ports::ports::PortRow;
use cmux_sidebar_ports::screen::{View, ViewStatus};
use cmux_sidebar_ports::ui::{
    body_lines, header_line, middle_truncate, row_line, scroll_offset, status_line, LineColor,
    LineStyle, StyledLine,
};

fn row(port: u16, process: &str, pid: u32, is_new: bool) -> PortRow {
    PortRow {
        port,
        process: process.to_string(),
        pid,
        is_new,
    }
}

const PLAIN: LineStyle = LineStyle {
    fg: None,
    bold: false,
    dim: false,
    reversed: false,
};

fn texts(lines: &[StyledLine]) -> Vec<&str> {
    lines.iter().map(|l| l.text.as_str()).collect()
}

#[test]
fn truncation_keeps_both_ends() {
    assert_eq!(middle_truncate("abcdefghij", 8), "abc...ij");
    assert_eq!(middle_truncate("abcdefghij", 4), "a...");
    assert_eq!(middle_truncate("abcdefghij", 10), "abcdefghij");
    assert_eq!(middle_truncate("abcdef", 1), ".");
    assert_eq!(middle_truncate("abcdef", 2), "..");
    assert_eq!(middle_truncate("ααββγγδδ", 7), "αα...δδ");
    assert_eq!(middle_truncate("", 0), "");
}

#[test]
fn truncated_length_is_the_room_given() {
    for max in 0..30 {
        let out = middle_truncate("abcdefghijklmnopqrstuvwxyz", max);
        assert_eq!(out.chars().count(), max.min(26));
    }
}

#[test]
fn scrolling_shows_the_selection() {
    assert_eq!(scroll_offset(0, 5, 100), 0);
    assert_eq!(scroll_offset(4, 5, 100), 0);
    assert_eq!(scroll_offset(5, 5, 100), 1);
    assert_eq!(scroll_offset(99, 5, 100), 95);
    assert_eq!(scroll_offset(150, 5, 100), 95);
    assert_eq!(scroll_offset(7, 10, 8), 0);
    assert_eq!(scroll_offset(7, 0, 8), 0);
    for selected in 0..20 {
        let offset = scroll_offset(selected, 4, 20);
        assert!(offset <= selected && selected < offset + 4 && offset + 4 <= 20);
    }
}

#[test]
fn header_counts_ports() {
    let line = header_line(3, 80);
    assert_eq!(line.text, "Listening ports (3)");
    assert!(line.style.bold);
    assert_eq!(header_line(12345, 9).text, "Lis...45)");
}

#[test]
fn row_styles_mark_new_dev_and_selected_rows() {
    let new_row = row_line(&row(22, "sshd", 1, true), 80, false);
    assert_eq!(new_row.text, ":22  sshd  1");
    assert_eq!(
        new_row.style,
        LineStyle {
            fg: Some(LineColor::Green),
            bold: true,
            ..PLAIN
        }
    );
    let dev = row_line(&row(3000, "node", 2, false), 80, true);
    assert_eq!(
        dev.style,
        LineStyle {
            fg: Some(LineColor::Cyan),
            reversed: true,
            ..PLAIN
        }
    );
    let new_dev = row_line(&row(8080, "node", 2, true), 80, false);
    assert_eq!(new_dev.style.fg, Some(LineColor::Green));
    let other = row_line(&row(443, "server", 900, false), 8, false);
    assert_eq!(other.text, ":44...00");
    assert_eq!(other.style, PLAIN);
}

#[test]
fn body_lists_rows_around_the_selection() {
    let rows: Vec<PortRow> = (1..=6).map(|i| row(i, "p", 100 + i as u32, false)).collect();
    let view = View {
        rows: &rows,
        selected: 4,
        scan_error: None,
        status: ViewStatus::Ready { message: "hi" },
    };
    let lines = body_lines(&view, 40, 3);
    assert_eq!(texts(&lines), [":3  p  103", ":4  p  104", ":5  p  105"]);
    let reversed: Vec<bool> = lines.iter().map(|l| l.style.reversed).collect();
    assert_eq!(reversed, [false, false, true]);
    assert!(body_lines(&view, 40, 0).is_empty());
    assert_eq!(body_lines(&view, 40, 10).len(), 6);
}

#[test]
fn body_reports_errors_and_empty_scans() {
    let rows = vec![row(80, "a", 1, false)];
    let error_view = View {
        rows: &rows,
        selected: 0,
        scan_error: Some("lsof failed: nope"),
        status: ViewStatus::Ready { message: "hi" },
    };
    let lines = body_lines(&error_view, 12, 5);
    assert_eq!(texts(&lines), ["Port scan error", "lsof failed: nope"].map(|t| middle_truncate(t, 12)).iter().map(String::as_str).collect::<Vec<_>>());
    assert_eq!(texts(&body_lines(&error_view, 40, 1)), ["Port scan error"]);

    let empty = View {
        rows: &[],
        selected: 0,
        scan_error: None,
        status: ViewStatus::ConfirmKill { row: &rows[0] },
    };
    let lines = body_lines(&empty, 5, 2);
    assert_eq!(texts(&lines), ["No listening TCP ports"]);
    assert_eq!(lines[0].style, PLAIN);
}

#[test]
fn body_shows_the_reconnect_notice() {
    let rows = vec![row(80, "a", 1, false)];
    let view = View {
        rows: &rows,
        selected: 0,
        scan_error: Some("ignored"),
        status: ViewStatus::Reconnecting { message: "cannot connect" },
    };
    assert_eq!(
        texts(&body_lines(&view, 200, 10)),
        [
            "Reconnecting to cmux",
            "cannot connect",
            "Set CMUX_TUI_SOCKET to the cmux-tui JSON-lines socket path.",
        ]
    );
    assert_eq!(
        texts(&body_lines(&view, 200, 2)),
        ["Reconnecting to cmux", "cannot connect"]
    );
    assert!(body_lines(&view, 200, 0).is_empty());
}

#[test]
fn status_line_follows_the_state() {
    let ready = status_line(ViewStatus::Ready { message: "ready now" }, 80);
    assert_eq!(ready.text, "ready now");
    assert_eq!(ready.style, LineStyle { dim: true, ..PLAIN });
    let reconnecting = status_line(ViewStatus::Reconnecting { message: "x" }, 80);
    assert_eq!(reconnecting.text, "Ctrl-C quit • Esc stays");
    assert!(reconnecting.style.dim);
    let target = row(3000, "node", 431, false);
    let confirm = status_line(ViewStatus::ConfirmKill { row: &target }, 80);
    assert_eq!(confirm.text, "SIGTERM node (431)? y/n");
    assert_eq!(
        confirm.style,
        LineStyle {
            fg: Some(LineColor::Yellow),
            ..PLAIN
        }
    );
    assert_eq!(
        status_line(ViewStatus::ConfirmKill { row: &target }, 10).text,
        "SIGT...y/n"
    );
}
