use cmux_sidebar_ports::layout::{draw_plan, screen_plan, sidebar_areas, Area, Areas};
use cmux_sidebar_ports::ports::PortRow;
use cmux_sidebar_ports::screen::{View, ViewStatus};

fn area(x: u16, y: u16, width: u16, height: u16) -> Area {
    Area {
        x,
        y,
        width,
        height,
    }
}

fn row(port: u16, pid: u32) -> PortRow {
    PortRow {
        port,
        process: "p".to_string(),
        pid,
        is_new: false,
    }
}

#[test]
fn sidebar_is_cut_into_header_list_and_status() {
    assert_eq!(
        sidebar_areas(area(0, 0, 20, 10)),
        Areas {
            header: area(0, 0, 20, 1),
            list: area(0, 1, 20, 8),
            status: area(0, 9, 20, 1),
        }
    );
    assert_eq!(
        sidebar_areas(area(3, 2, 7, 5)),
        Areas {
            header: area(3, 2, 7, 1),
            list: area(3, 3, 7, 3),
            status: area(3, 6, 7, 1),
        }
    );
}

#[test]
fn every_line_gets_its_own_row() {
    let rows = vec![row(80, 1), row(443, 2), row(8080, 3)];
    let view = View {
        rows: &rows,
        selected: 2,
        scan_error: None,
        status: ViewStatus::Ready { message: "ready" },
    };
    let plan = draw_plan(&view, area(0, 0, 30, 4));
    let placed: Vec<(Area, &str)> = plan.iter().map(|p| (p.area, p.line.text.as_str())).collect();
    assert_eq!(
        placed,
        [
            (area(0, 0, 30, 1), "Listening ports (3)"),
            (area(0, 1, 30, 1), ":443  p  2"),
            (area(0, 2, 30, 1), ":8080  p  3"),
            (area(0, 3, 30, 1), "ready"),
        ]
    );
    assert!(plan[2].line.style.reversed);
}

#[test]
fn list_rows_stop_at_the_last_terminal_row() {
    let rows = vec![row(1, 1), row(2, 2)];
    let view = View {
        rows: &rows,
        selected: 0,
        scan_error: None,
        status: ViewStatus::Ready { message: "m" },
    };
    let areas = Areas {
        header: area(0, 0, 10, 1),
        list: area(0, u16::MAX, 10, 2),
        status: area(0, 1, 10, 1),
    };
    let plan = screen_plan(&view, &areas);
    assert_eq!(plan[1].area, area(0, u16::MAX, 10, 1));
    assert_eq!(plan[2].area, area(0, u16::MAX, 10, 1));
}

#[test]
fn two_rows_hold_only_header_and_status() {
    assert_eq!(
        sidebar_areas(area(0, 4, 12, 2)),
        Areas {
            header: area(0, 4, 12, 1),
            list: area(0, 5, 12, 0),
            status: area(0, 5, 12, 1),
        }
    );
}

#[test]
fn one_row_goes_to_header_or_status() {
    let a = sidebar_areas(area(2, 3, 9, 1));
    assert_eq!(a.header.y, 3);
    assert_eq!(a.list.height, 0);
    assert_eq!(a.header.height + a.list.height + a.status.height, 1);
    assert_eq!(a.list.y, a.header.y + a.header.height);
    assert_eq!(a.status.y, a.list.y + a.list.height);
}

#[test]
fn rows_past_the_last_terminal_row_are_dropped() {
    assert_eq!(
        sidebar_areas(area(0, u16::MAX - 4, 5, 10)),
        Areas {
            header: area(0, u16::MAX - 4, 5, 1),
            list: area(0, u16::MAX - 3, 5, 2),
            status: area(0, u16::MAX - 1, 5, 1),
        }
    );
}
