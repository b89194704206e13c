use cmux_sidebar_ports::ports::PortRow;
use cmux_sidebar_ports::screen::ViewStatus;
use cmux_sidebar_ports::sidebar::{
    Action, App, BrowserOutcome, ConnectOutcome, ConnectionStatus, Key, KeyCode, KillOutcome,
};

const DEFAULT: &str = "↑↓ move • Enter open • k kill • r refresh";
const CTRL: u8 = 2;

fn row(port: u16, process: &str, pid: u32) -> PortRow {
    PortRow {
        port,
        process: process.to_string(),
        pid,
        is_new: false,
    }
}

fn key(code: KeyCode) -> Key {
    Key { code, modifiers: 0 }
}

fn connected_app(rows: Vec<PortRow>) -> App {
    let mut app = App::new(1_000);
    app.finish_refresh(Ok(rows), 1_000);
    app.finish_connect(ConnectOutcome::Connected, 1_000);
    app
}

fn is_idle(action: &Action) -> bool {
    matches!(action, Action::Idle)
}

#[test]
fn starts_disconnected_with_a_scan_and_a_connection_due() {
    let app = App::new(10_000);
    assert!(app.rows.is_empty());
    assert!(!app.connected);
    assert_eq!(app.message, DEFAULT);
    assert!(matches!(&app.connection, ConnectionStatus::Reconnecting { message } if message == "connecting"));
    let plan = app.tick(10_000);
    assert!(!plan.refresh);
    assert!(plan.reconnect);
    assert!(app.tick(12_000).refresh);
    assert!(!app.tick(11_999).refresh);
}

#[test]
fn ctrl_c_quits_and_esc_stays() {
    let mut app = connected_app(vec![row(80, "a", 10)]);
    assert!(matches!(
        app.handle_key(Key { code: KeyCode::Char('c'), modifiers: CTRL }),
        Action::Quit
    ));
    assert!(is_idle(&app.handle_key(key(KeyCode::Esc))));
    assert!(is_idle(&app.handle_key(key(KeyCode::Char('c')))));
    app.handle_key(key(KeyCode::Char('k')));
    assert!(matches!(
        app.handle_key(Key { code: KeyCode::Char('c'), modifiers: CTRL | 1 }),
        Action::Quit
    ));
}

#[test]
fn arrows_and_ctrl_keys_move_within_the_rows() {
    let mut app = connected_app(vec![row(1, "a", 10), row(2, "b", 11), row(3, "c", 12)]);
    app.handle_key(key(KeyCode::Up));
    assert_eq!(app.selected, 0);
    app.handle_key(key(KeyCode::Down));
    app.handle_key(Key { code: KeyCode::Char('j'), modifiers: CTRL });
    assert_eq!(app.selected, 2);
    app.handle_key(key(KeyCode::Down));
    assert_eq!(app.selected, 2);
    app.handle_key(Key { code: KeyCode::Char('k'), modifiers: CTRL });
    assert_eq!(app.selected, 1);
    assert!(app.pending_kill.is_none());
    app.move_selection(isize::MIN);
    assert_eq!(app.selected, 0);
    app.move_selection(isize::MAX);
    assert_eq!(app.selected, 2);
}

#[test]
fn enter_opens_the_selected_port_only_when_connected() {
    let mut app = connected_app(vec![row(80, "a", 10), row(3000, "node", 11)]);
    app.handle_key(key(KeyCode::Down));
    assert!(matches!(app.handle_key(key(KeyCode::Enter)), Action::OpenBrowser { port: 3000 }));
    app.finish_open(3000, BrowserOutcome::Opened, 2_000);
    assert_eq!(app.message, "Opened http://localhost:3000");

    app.finish_open(
        3000,
        BrowserOutcome::CommandFailed {
            message: "no browser".to_string(),
        },
        2_000,
    );
    assert_eq!(app.message, "Browser error: no browser");
    assert!(app.connected);

    app.finish_open(
        3000,
        BrowserOutcome::Disconnected {
            error: "session socket closed".to_string(),
        },
        2_000,
    );
    assert!(!app.connected);
    assert!(matches!(&app.connection, ConnectionStatus::Reconnecting { message } if message == "cmux socket dropped: session socket closed"));
    assert!(is_idle(&app.handle_key(key(KeyCode::Enter))));
    assert_eq!(app.message, "Cannot open: cmux is disconnected");
}

#[test]
fn kill_is_confirmed_against_the_captured_row() {
    let mut app = connected_app(vec![row(80, "a", 10), row(3000, "node", 431)]);
    app.handle_key(key(KeyCode::Down));
    app.handle_key(key(KeyCode::Char('k')));
    assert_eq!(app.pending_kill, Some(row(3000, "node", 431)));
    assert!(matches!(app.view().status, ViewStatus::ConfirmKill { row } if row.pid == 431));
    // A refresh reorders the rows before the answer; the target stays.
    app.finish_refresh(Ok(vec![row(3000, "node", 431), row(9000, "z", 1)]), 1_500);
    match app.handle_key(key(KeyCode::Char('Y'))) {
        Action::Kill { pid, process } => {
            assert_eq!(pid, 431);
            assert_eq!(process, "node");
            app.finish_kill(pid, &process, KillOutcome::Signaled, 1_600);
        }
        _ => panic!("expected a kill"),
    }
    assert!(app.pending_kill.is_none());
    assert_eq!(app.message, "Sent SIGTERM to node (431)");
    assert!(app.tick(1_600).refresh);
}

#[test]
fn kill_is_refused_when_the_process_moved_or_is_init() {
    let mut app = connected_app(vec![row(80, "a", 10), row(81, "init", 1)]);
    app.handle_key(key(KeyCode::Char('k')));
    app.finish_refresh(Ok(vec![row(80, "a", 11)]), 1_500);
    assert!(is_idle(&app.handle_key(key(KeyCode::Char('y')))));
    assert_eq!(app.message, "Process changed since prompt; kill cancelled");
    assert!(app.pending_kill.is_none());

    let mut app = connected_app(vec![row(80, "a", 10), row(81, "init", 1)]);
    app.handle_key(key(KeyCode::Down));
    app.handle_key(key(KeyCode::Char('k')));
    assert!(is_idle(&app.handle_key(key(KeyCode::Char('y')))));
    assert_eq!(app.message, "Refusing to signal pid <= 1");
}

#[test]
fn kill_prompt_can_be_cancelled_and_ignores_other_keys() {
    let mut app = connected_app(vec![row(80, "a", 10), row(81, "b", 20)]);
    app.handle_key(key(KeyCode::Char('k')));
    assert!(is_idle(&app.handle_key(key(KeyCode::Down))));
    assert_eq!(app.selected, 0);
    assert!(app.pending_kill.is_some());
    app.handle_key(key(KeyCode::Esc));
    assert!(app.pending_kill.is_none());
    assert_eq!(app.message, "Kill cancelled");
    app.handle_key(key(KeyCode::Char('k')));
    app.handle_key(key(KeyCode::Char('N')));
    assert!(app.pending_kill.is_none());
}

#[test]
fn kill_outcomes_become_messages() {
    let mut app = connected_app(vec![]);
    app.finish_kill(
        42,
        "srv",
        KillOutcome::Failed {
            status: "exit status: 1".to_string(),
        },
        5_000,
    );
    assert_eq!(app.message, "kill failed for 42 (status exit status: 1)");
    app.finish_kill(
        42,
        "srv",
        KillOutcome::NotRun {
            error: "No such file or directory (os error 2)".to_string(),
        },
        5_000,
    );
    assert_eq!(
        app.message,
        "could not run kill for 42: No such file or directory (os error 2)"
    );
    assert!(app.tick(5_000).refresh);
}

#[test]
fn r_asks_for_a_refresh_and_other_keys_do_nothing() {
    let mut app = connected_app(vec![row(80, "a", 10)]);
    assert!(matches!(app.handle_key(key(KeyCode::Char('r'))), Action::Refresh));
    assert!(is_idle(&app.handle_key(Key { code: KeyCode::Char('r'), modifiers: 1 })));
    assert!(is_idle(&app.handle_key(Key { code: KeyCode::Char('k'), modifiers: 4 })));
    assert!(app.pending_kill.is_none());
    assert!(is_idle(&app.handle_key(key(KeyCode::Other))));
}

#[test]
fn new_ports_are_marked_after_the_first_scan() {
    let mut app = App::new(0);
    app.finish_refresh(Ok(vec![row(80, "a", 10), row(443, "b", 11)]), 0);
    assert!(app.rows.iter().all(|r| !r.is_new));
    app.finish_refresh(Ok(vec![row(80, "a", 10), row(3000, "c", 12)]), 2_000);
    let flags: Vec<bool> = app.rows.iter().map(|r| r.is_new).collect();
    assert_eq!(flags, [false, true]);
    app.finish_refresh(Ok(vec![row(80, "a", 10), row(3000, "c", 12)]), 4_000);
    assert!(app.rows.iter().all(|r| !r.is_new));
    assert!(!app.tick(5_999).refresh);
    assert!(app.tick(6_000).refresh);
}

#[test]
fn scan_errors_clear_the_rows_and_the_selection_follows_the_rows() {
    let mut app = App::new(0);
    app.finish_refresh(Ok(vec![row(1, "a", 1), row(2, "b", 2), row(3, "c", 3)]), 0);
    app.selected = 2;
    app.finish_refresh(Ok(vec![row(1, "a", 1)]), 0);
    assert_eq!(app.selected, 0);
    app.finish_refresh(Err("lsof failed: x".to_string()), 0);
    assert!(app.rows.is_empty());
    assert_eq!(app.selected, 0);
    assert_eq!(app.scan_error.as_deref(), Some("lsof failed: x"));
    assert_eq!(app.view().scan_error, Some("lsof failed: x"));
    app.finish_refresh(Ok(vec![row(1, "a", 1)]), 0);
    assert_eq!(app.scan_error, None);
}

#[test]
fn connection_attempts_back_off_up_to_eight_seconds() {
    let mut app = App::new(0);
    let mut delays = Vec::new();
    for _ in 0..6 {
        app.finish_connect(
            ConnectOutcome::ConnectFailed {
                error: "refused".to_string(),
            },
            100,
        );
        delays.push(app.next_reconnect - 100);
    }
    assert_eq!(delays, [500, 1000, 2000, 4000, 8000, 8000]);
    assert!(matches!(&app.connection, ConnectionStatus::Reconnecting { message } if message == "cannot connect to cmux: refused"));
    assert!(!app.tick(8_099).reconnect);
    assert!(app.tick(8_100).reconnect);
    app.finish_connect(
        ConnectOutcome::IdentifyFailed {
            error: "timeout".to_string(),
        },
        0,
    );
    assert!(matches!(&app.connection, ConnectionStatus::Reconnecting { message } if message == "cmux did not respond: timeout"));
    app.finish_connect(ConnectOutcome::Connected, 0);
    assert!(app.connected);
    assert_eq!(app.reconnect_delay, 500);
    assert_eq!(app.message, DEFAULT);
    assert!(!app.tick(u64::MAX).reconnect);
    assert!(matches!(app.view().status, ViewStatus::Ready { message } if message == DEFAULT));
}

#[test]
fn missing_socket_variable_is_reported() {
    let mut app = App::new(0);
    app.finish_connect(ConnectOutcome::NoSocket, 0);
    match app.view().status {
        ViewStatus::Reconnecting { message } => assert_eq!(
            message,
            "CMUX_TUI_SOCKET is not set. Launch this plugin from cmux, or run standalone with CMUX_TUI_SOCKET=/path/to/cmux-tui.sock cargo run."
        ),
        _ => panic!("expected the reconnect notice"),
    }
}

#[test]
fn dropping_the_connection_forgets_a_pending_kill() {
    let mut app = connected_app(vec![row(80, "a", 10)]);
    app.handle_key(key(KeyCode::Char('k')));
    app.disconnect("gone".to_string(), 0);
    assert!(app.pending_kill.is_none());
    assert!(!app.connected);
}
