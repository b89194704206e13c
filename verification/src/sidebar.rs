//! The decisions of the sidebar's event loop. The loop itself (terminal
//! events, the clock, running lsof and kill, talking to cmux) hands each
//! event to an `App`, which updates its state and names the outside work to
//! do next; the result of that work comes back as an outcome.
use vstd::prelude::*;
use crate::ports::{
    has_pid_port, marked, port_set, ports_of, rows_view, mark_new_ports, PortRow, RowView,
};
use crate::screen;
use crate::screen::ViewStatus;
use crate::text::{decimal, push_decimal, push_str};
use crate::ui::{opt_view, status_view, StatusView};

verus! {

broadcast use vstd::std_specs::hash::group_hash_axioms;

/// Milliseconds between two scans of the listening ports.
pub const REFRESH_EVERY_MS: u64 = 2000;

/// Delay before the first reconnection attempt, in milliseconds.
pub const INITIAL_RECONNECT_DELAY_MS: u64 = 500;

/// Longest delay between reconnection attempts, in milliseconds.
pub const MAX_RECONNECT_DELAY_MS: u64 = 8000;

pub open spec fn default_status() -> Seq<char> {
    "↑↓ move • Enter open • k kill • r refresh"@
}

pub open spec fn no_socket_message() -> Seq<char> {
    "CMUX_TUI_SOCKET is not set. Launch this plugin from cmux, or run standalone with CMUX_TUI_SOCKET=/path/to/cmux-tui.sock cargo run."@
}

/// Whether the sidebar talks to cmux, and why not when it does not.
pub enum ConnectionStatus {
    Ready,
    Reconnecting { message: String },
}

pub enum ConnectionView {
    Ready,
    Reconnecting(Seq<char>),
}

pub open spec fn connection_view(c: ConnectionStatus) -> ConnectionView {
    match c {
        ConnectionStatus::Ready => ConnectionView::Ready,
        ConnectionStatus::Reconnecting { message } => ConnectionView::Reconnecting(message@),
    }
}

/// A key as the terminal reports it.
#[derive(Clone, Copy, Debug, PartialEq, Eq, Structural)]
pub enum KeyCode {
    Char(char),
    Up,
    Down,
    Enter,
    Esc,
    Other,
}

/// A key press: the key and the bits of the held modifiers (shift 1,
/// control 2, alt 4, super 8, hyper 16, meta 32).
#[derive(Clone, Copy, Debug, PartialEq, Eq, Structural)]
pub struct Key {
    pub code: KeyCode,
    pub modifiers: u8,
}

pub open spec fn has_control(modifiers: u8) -> bool {
    modifiers & 2u8 != 0
}

/// The outside work that the event loop performs next.
pub enum Action {
    /// Nothing to do.
    Idle,
    /// Leave the event loop.
    Quit,
    /// Scan the ports and hand the result to `finish_refresh`.
    Refresh,
    /// Open the port in a browser tab and hand the outcome to `finish_open`.
    OpenBrowser { port: u16 },
    /// Send SIGTERM to the process and hand the outcome to `finish_kill`.
    Kill { pid: u32, process: String },
}

pub enum ActionView {
    Idle,
    Quit,
    Refresh,
    OpenBrowser(u16),
    Kill(u32, Seq<char>),
}

pub open spec fn action_view(a: Action) -> ActionView {
    match a {
        Action::Idle => ActionView::Idle,
        Action::Quit => ActionView::Quit,
        Action::Refresh => ActionView::Refresh,
        Action::OpenBrowser { port } => ActionView::OpenBrowser(port),
        Action::Kill { pid, process } => ActionView::Kill(pid, process@),
    }
}

/// How opening a browser tab went.
pub enum BrowserOutcome {
    Opened,
    /// cmux answered with an error.
    CommandFailed { message: String },
    /// The connection to cmux failed.
    Disconnected { error: String },
}

/// How running `kill -TERM` went.
pub enum KillOutcome {
    Signaled,
    /// kill ran and exited unsuccessfully with this status.
    Failed { status: String },
    /// kill could not be run.
    NotRun { error: String },
}

/// How connecting to cmux went.
pub enum ConnectOutcome {
    /// Neither socket variable is set.
    NoSocket,
    Connected,
    ConnectFailed { error: String },
    IdentifyFailed { error: String },
}

/// Which scheduled work is due.
pub struct TickPlan {
    pub refresh: bool,
    pub reconnect: bool,
}

/// The state of the sidebar. Times are milliseconds of a monotonic clock.
pub struct App {
    pub rows: Vec<PortRow>,
    pub selected: usize,
    pub scan_error: Option<String>,
    pub has_scanned: bool,
    pub connected: bool,
    pub connection: ConnectionStatus,
    pub message: String,
    pub pending_kill: Option<PortRow>,
    pub next_refresh: u64,
    pub next_reconnect: u64,
    pub reconnect_delay: u64,
}

/// The state as plain values.
pub struct AppView {
    pub rows: Seq<RowView>,
    pub selected: usize,
    pub scan_error: Option<Seq<char>>,
    pub has_scanned: bool,
    pub connected: bool,
    pub connection: ConnectionView,
    pub message: Seq<char>,
    pub pending_kill: Option<RowView>,
    pub next_refresh: u64,
    pub next_reconnect: u64,
    pub reconnect_delay: u64,
}

pub open spec fn opt_string_view(o: Option<String>) -> Option<Seq<char>> {
    match o {
        Some(s) => Some(s@),
        None => None,
    }
}

pub open spec fn opt_row_view(o: Option<PortRow>) -> Option<RowView> {
    match o {
        Some(r) => Some(r@),
        None => None,
    }
}

impl App {
    /// The state as plain values.
    pub open spec fn state(&self) -> AppView {
        AppView {
            rows: rows_view(self.rows@),
            selected: self.selected,
            scan_error: opt_string_view(self.scan_error),
            has_scanned: self.has_scanned,
            connected: self.connected,
            connection: connection_view(self.connection),
            message: self.message@,
            pending_kill: opt_row_view(self.pending_kill),
            next_refresh: self.next_refresh,
            next_reconnect: self.next_reconnect,
            reconnect_delay: self.reconnect_delay,
        }
    }
}

pub open spec fn sat_add(a: u64, b: u64) -> u64 {
    if a + b > u64::MAX {
        u64::MAX
    } else {
        (a + b) as u64
    }
}

/// The selection after moving it by `delta` within `len` rows.
pub open spec fn moved(selected: usize, delta: int, len: nat) -> usize {
    if len == 0 {
        0
    } else {
        let t = selected + delta;
        let clamped: int = if t < 0 {
            0
        } else if t > usize::MAX {
            usize::MAX as int
        } else {
            t
        };
        if clamped < len - 1 {
            clamped as usize
        } else {
            (len - 1) as usize
        }
    }
}

impl AppView {
    /// The selection is on a row, or at 0.
    pub open spec fn wf(self) -> bool {
        self.selected == 0 || self.selected < self.rows.len()
    }

    pub open spec fn backing_off(self, message: Seq<char>, now: u64) -> AppView {
        AppView {
            connection: ConnectionView::Reconnecting(message),
            next_reconnect: sat_add(now, self.reconnect_delay),
            reconnect_delay: if self.reconnect_delay > 4000 {
                MAX_RECONNECT_DELAY_MS
            } else {
                (2 * self.reconnect_delay) as u64
            },
            ..self
        }
    }

    pub open spec fn dropped(self, message: Seq<char>, now: u64) -> AppView {
        AppView { connected: false, pending_kill: None, ..self }.backing_off(message, now)
    }

    pub open spec fn with_message(self, message: Seq<char>) -> AppView {
        AppView { message, ..self }
    }

    /// The effect of Enter: open the selected port, if any, while connected.
    pub open spec fn on_enter(self) -> (AppView, ActionView) {
        if self.selected >= self.rows.len() {
            (self, ActionView::Idle)
        } else if !self.connected {
            (self.with_message("Cannot open: cmux is disconnected"@), ActionView::Idle)
        } else {
            (self, ActionView::OpenBrowser(self.rows[self.selected as int].port))
        }
    }

    /// The effect of confirming the pending kill: the prompt closes, and the
    /// kill goes ahead only while a row with the target's pid still listens
    /// on its port and the pid is above 1.
    pub open spec fn on_confirm(self) -> (AppView, ActionView) {
        match self.pending_kill {
            None => (self, ActionView::Idle),
            Some(target) => {
                let s = AppView { pending_kill: None, ..self };
                if !has_pid_port(self.rows, target.pid, target.port) {
                    (s.with_message("Process changed since prompt; kill cancelled"@), ActionView::Idle)
                } else if target.pid <= 1 {
                    (s.with_message("Refusing to signal pid <= 1"@), ActionView::Idle)
                } else {
                    (s, ActionView::Kill(target.pid, target.process))
                }
            },
        }
    }

    /// The effect of a key press: the next state and the work to do.
    pub open spec fn on_key(self, key: Key) -> (AppView, ActionView) {
        let ctrl = has_control(key.modifiers);
        let plain = key.modifiers == 0;
        if ctrl && key.code == KeyCode::Char('c') {
            (self, ActionView::Quit)
        } else if self.pending_kill is Some {
            if key.code == KeyCode::Char('y') || key.code == KeyCode::Char('Y') {
                self.on_confirm()
            } else if key.code == KeyCode::Char('n') || key.code == KeyCode::Char('N') || key.code
                == KeyCode::Esc {
                (AppView { pending_kill: None, message: "Kill cancelled"@, ..self }, ActionView::Idle)
            } else {
                (self, ActionView::Idle)
            }
        } else if key.code == KeyCode::Up || (key.code == KeyCode::Char('k') && ctrl) {
            (AppView { selected: moved(self.selected, -1, self.rows.len()), ..self }, ActionView::Idle)
        } else if key.code == KeyCode::Down || (key.code == KeyCode::Char('j') && ctrl) {
            (AppView { selected: moved(self.selected, 1, self.rows.len()), ..self }, ActionView::Idle)
        } else if key.code == KeyCode::Enter {
            self.on_enter()
        } else if key.code == KeyCode::Char('k') && plain {
            (
                AppView {
                    pending_kill: if self.selected < self.rows.len() {
                        Some(self.rows[self.selected as int])
                    } else {
                        None
                    },
                    ..self
                },
                ActionView::Idle,
            )
        } else if key.code == KeyCode::Char('r') && plain {
            (self, ActionView::Refresh)
        } else {
            (self, ActionView::Idle)
        }
    }

    /// The state after a scan: on success the rows are replaced (after the
    /// first scan, rows whose port was not listed before are marked new) and
    /// the selection is kept within them; on failure the rows are cleared
    /// and the error is kept.
    pub open spec fn refreshed(self, result: Result<Seq<RowView>, Seq<char>>, now: u64) -> AppView {
        match result {
            Ok(rows) => {
                let new_rows = if self.has_scanned {
                    rows.map_values(|r: RowView| marked(r, ports_of(self.rows)))
                } else {
                    rows
                };
                let last: int = if rows.len() == 0 {
                    0
                } else {
                    rows.len() - 1
                };
                AppView {
                    rows: new_rows,
                    scan_error: None,
                    has_scanned: true,
                    selected: if self.selected < last {
                        self.selected
                    } else {
                        last as usize
                    },
                    next_refresh: sat_add(now, REFRESH_EVERY_MS),
                    ..self
                }
            },
            Err(e) => AppView {
                rows: seq![],
                selected: 0,
                scan_error: Some(e),
                has_scanned: true,
                next_refresh: sat_add(now, REFRESH_EVERY_MS),
                ..self
            },
        }
    }
}

pub open spec fn result_view(r: Result<Vec<PortRow>, String>) -> Result<Seq<RowView>, Seq<char>> {
    match r {
        Ok(rows) => Ok(rows_view(rows@)),
        Err(e) => Err(e@),
    }
}

pub open spec fn kill_message(pid: u32, process: Seq<char>, outcome: KillOutcome) -> Seq<char> {
    match outcome {
        KillOutcome::Signaled => "Sent SIGTERM to "@ + process + " ("@ + decimal(pid as nat) + ")"@,
        KillOutcome::Failed { status } => "kill failed for "@ + decimal(pid as nat) + " (status "@
            + status@ + ")"@,
        KillOutcome::NotRun { error } => "could not run kill for "@ + decimal(pid as nat) + ": "@
            + error@,
    }
}

/// `a + b`, or the largest `u64` when that overflows.
pub fn saturating_add(a: u64, b: u64) -> (r: u64)
    ensures
        r == sat_add(a, b),
{
    if a > u64::MAX - b {
        u64::MAX
    } else {
        a + b
    }
}

impl App {
    /// The state at start-up: no rows yet, not connected, a scan due after
    /// the refresh interval and a connection attempt due now.
    pub fn new(now: u64) -> (app: App)
        ensures
            app.state() == (AppView {
                rows: seq![],
                selected: 0,
                scan_error: None,
                has_scanned: false,
                connected: false,
                connection: ConnectionView::Reconnecting("connecting"@),
                message: default_status(),
                pending_kill: None,
                next_refresh: sat_add(now, REFRESH_EVERY_MS),
                next_reconnect: now,
                reconnect_delay: INITIAL_RECONNECT_DELAY_MS,
            }),
            app.state().wf(),
    {
        let app = App {
            rows: Vec::new(),
            selected: 0,
            scan_error: None,
            has_scanned: false,
            connected: false,
            connection: ConnectionStatus::Reconnecting { message: String::from_str("connecting") },
            message: String::from_str("↑↓ move • Enter open • k kill • r refresh"),
            pending_kill: None,
            next_refresh: saturating_add(now, REFRESH_EVERY_MS),
            next_reconnect: now,
            reconnect_delay: INITIAL_RECONNECT_DELAY_MS,
        };
        assert(app.state().rows =~= Seq::<RowView>::empty());
        app
    }

    /// What the screen shows: the reconnect notice while disconnected,
    /// otherwise the kill prompt while one is pending, otherwise the message.
    pub fn view(&self) -> (v: screen::View<'_>)
        ensures
            v.rows@ == self.rows@,
            v.selected == self.selected,
            opt_view(v.scan_error) == opt_string_view(self.scan_error),
            status_view(v.status) == (match self.state().connection {
                ConnectionView::Reconnecting(m) => StatusView::Reconnecting(m),
                ConnectionView::Ready => match self.state().pending_kill {
                    Some(r) => StatusView::ConfirmKill(r),
                    None => StatusView::Ready(self.state().message),
                },
            }),
    {
        let status = match &self.connection {
            ConnectionStatus::Reconnecting { message } => ViewStatus::Reconnecting {
                message: message.as_str(),
            },
            ConnectionStatus::Ready => match &self.pending_kill {
                Some(row) => ViewStatus::ConfirmKill { row },
                None => ViewStatus::Ready { message: self.message.as_str() },
            },
        };
        let scan_error = match &self.scan_error {
            Some(e) => Some(e.as_str()),
            None => None,
        };
        screen::View { rows: self.rows.as_slice(), selected: self.selected, scan_error, status }
    }

    /// Moves the selection by `delta` rows, staying within the rows.
    pub fn move_selection(&mut self, delta: isize)
        ensures
            final(self).state() == (AppView {
                selected: moved(old(self).selected, delta as int, old(self).rows@.len()),
                ..old(self).state()
            }),
    {
        if self.rows.len() == 0 {
            self.selected = 0;
            return;
        }
        let t: usize = if delta >= 0 {
            let d = delta as usize;
            if self.selected > usize::MAX - d {
                usize::MAX
            } else {
                self.selected + d
            }
        } else {
            let d = (0i128 - delta as i128) as usize;
            if self.selected < d {
                0
            } else {
                self.selected - d
            }
        };
        let last = self.rows.len() - 1;
        self.selected = if t < last {
            t
        } else {
            last
        };
    }

    fn set_message(&mut self, text: &str)
        ensures
            final(self).state() == old(self).state().with_message(text@),
    {
        self.message = String::from_str(text);
    }

    /// Handles a key press: Ctrl-C quits; while a kill awaits confirmation,
    /// `y` confirms it (if the process still listens on the same port and
    /// its pid is above 1) and `n` or Esc cancels it; otherwise the arrows
    /// (or Ctrl-K, Ctrl-J) move, Enter opens the selected port, `k` asks to
    /// kill its process and `r` refreshes. Esc never quits.
    pub fn handle_key(&mut self, key: Key) -> (a: Action)
        ensures
            (final(self).state(), action_view(a)) == old(self).state().on_key(key),
    {
        let ctrl = key.modifiers & 2u8 != 0;
        let plain = key.modifiers == 0;
        if ctrl && key.code == KeyCode::Char('c') {
            return Action::Quit;
        }
        if self.pending_kill.is_some() {
            if key.code == KeyCode::Char('y') || key.code == KeyCode::Char('Y') {
                return self.confirm_kill();
            } else if key.code == KeyCode::Char('n') || key.code == KeyCode::Char('N') || key.code
                == KeyCode::Esc {
                self.pending_kill = None;
                self.set_message("Kill cancelled");
            }
            return Action::Idle;
        }
        if key.code == KeyCode::Up || (key.code == KeyCode::Char('k') && ctrl) {
            self.move_selection(-1);
            Action::Idle
        } else if key.code == KeyCode::Down || (key.code == KeyCode::Char('j') && ctrl) {
            self.move_selection(1);
            Action::Idle
        } else if key.code == KeyCode::Enter {
            self.open_selected()
        } else if key.code == KeyCode::Char('k') && plain {
            self.request_kill();
            Action::Idle
        } else if key.code == KeyCode::Char('r') && plain {
            Action::Refresh
        } else {
            Action::Idle
        }
    }

    /// Confirms the pending kill: asks to signal the captured target if it
    /// still listens on the same port and its pid is above 1.
    pub fn confirm_kill(&mut self) -> (a: Action)
        ensures
            (final(self).state(), action_view(a)) == old(self).state().on_confirm(),
    {
        let target = match &self.pending_kill {
            Some(t) => t.duplicate(),
            None => return Action::Idle,
        };
        self.pending_kill = None;
        if !crate::ports::contains_pid_port(&self.rows, target.pid, target.port) {
            self.set_message("Process changed since prompt; kill cancelled");
            return Action::Idle;
        }
        if target.pid <= 1 {
            self.set_message("Refusing to signal pid <= 1");
            return Action::Idle;
        }
        Action::Kill { pid: target.pid, process: target.process }
    }

    /// Remembers the selected row as the target of a kill, so that a later
    /// refresh that reorders the rows cannot change the target.
    pub fn request_kill(&mut self)
        ensures
            final(self).state() == (AppView {
                pending_kill: if old(self).selected < old(self).rows@.len() {
                    Some(old(self).rows@[old(self).selected as int]@)
                } else {
                    None
                },
                ..old(self).state()
            }),
    {
        if self.selected < self.rows.len() {
            self.pending_kill = Some(self.rows[self.selected].duplicate());
        } else {
            self.pending_kill = None;
        }
    }

    /// Asks to open the selected port, unless nothing is selected or cmux is
    /// disconnected.
    pub fn open_selected(&mut self) -> (a: Action)
        ensures
            (final(self).state(), action_view(a)) == old(self).state().on_enter(),
    {
        if self.selected >= self.rows.len() {
            return Action::Idle;
        }
        let port = self.rows[self.selected].port;
        if !self.connected {
            self.set_message("Cannot open: cmux is disconnected");
            return Action::Idle;
        }
        Action::OpenBrowser { port }
    }

    /// Which scheduled work is due at `now`: a scan once the refresh
    /// interval has passed, a connection attempt while disconnected once the
    /// backoff delay has passed.
    pub fn tick(&self, now: u64) -> (plan: TickPlan)
        ensures
            plan.refresh == (now >= self.next_refresh),
            plan.reconnect == (!self.connected && now >= self.next_reconnect),
    {
        TickPlan {
            refresh: now >= self.next_refresh,
            reconnect: !self.connected && now >= self.next_reconnect,
        }
    }

    /// Takes in the result of a scan made at `now`.
    pub fn finish_refresh(&mut self, result: Result<Vec<PortRow>, String>, now: u64)
        ensures
            final(self).state() == old(self).state().refreshed(result_view(result), now),
    {
        match result {
            Ok(mut rows) => {
                let ghost scanned = rows_view(rows@);
                if self.has_scanned {
                    let previous = port_set(self.rows.as_slice());
                    mark_new_ports(rows.as_mut_slice(), &previous);
                    assert(rows_view(rows@) =~= scanned.map_values(
                        |r: RowView| marked(r, ports_of(rows_view(self.rows@))),
                    ));
                }
                let last = if rows.len() == 0 {
                    0
                } else {
                    rows.len() - 1
                };
                self.rows = rows;
                self.scan_error = None;
                self.has_scanned = true;
                if self.selected >= last {
                    self.selected = last;
                }
            },
            Err(error) => {
                self.rows = Vec::new();
                self.selected = 0;
                self.scan_error = Some(error);
                self.has_scanned = true;
                assert(rows_view(self.rows@) =~= Seq::<RowView>::empty());
            },
        }
        self.next_refresh = saturating_add(now, REFRESH_EVERY_MS);
    }

    /// Takes in how the kill of `pid` went at `now`; a scan is then due at
    /// once.
    pub fn finish_kill(&mut self, pid: u32, process: &str, outcome: KillOutcome, now: u64)
        ensures
            final(self).state() == (AppView {
                message: kill_message(pid, process@, outcome),
                next_refresh: now,
                ..old(self).state()
            }),
    {
        let mut m = String::new();
        match outcome {
            KillOutcome::Signaled => {
                push_str(&mut m, "Sent SIGTERM to ");
                push_str(&mut m, process);
                push_str(&mut m, " (");
                push_decimal(&mut m, pid as u64);
                push_str(&mut m, ")");
            },
            KillOutcome::Failed { status } => {
                push_str(&mut m, "kill failed for ");
                push_decimal(&mut m, pid as u64);
                push_str(&mut m, " (status ");
                push_str(&mut m, status.as_str());
                push_str(&mut m, ")");
            },
            KillOutcome::NotRun { error } => {
                push_str(&mut m, "could not run kill for ");
                push_decimal(&mut m, pid as u64);
                push_str(&mut m, ": ");
                push_str(&mut m, error.as_str());
            },
        }
        self.message = m;
        self.next_refresh = now;
    }

    /// Marks the connection as lost with `message` and schedules the next
    /// attempt after the current delay, which then doubles up to its limit.
    pub fn disconnect_with_backoff(&mut self, message: String, now: u64)
        ensures
            final(self).state() == old(self).state().backing_off(message@, now),
    {
        self.connection = ConnectionStatus::Reconnecting { message };
        self.next_reconnect = saturating_add(now, self.reconnect_delay);
        self.reconnect_delay = if self.reconnect_delay > 4000 {
            MAX_RECONNECT_DELAY_MS
        } else {
            2 * self.reconnect_delay
        };
    }

    /// Drops the connection (and any pending kill) and backs off.
    pub fn disconnect(&mut self, message: String, now: u64)
        ensures
            final(self).state() == old(self).state().dropped(message@, now),
    {
        self.connected = false;
        self.pending_kill = None;
        self.disconnect_with_backoff(message, now);
    }

    /// Takes in how opening a browser tab for `port` went.
    pub fn finish_open(&mut self, port: u16, outcome: BrowserOutcome, now: u64)
        ensures
            final(self).state() == (match outcome {
                BrowserOutcome::Opened => old(self).state().with_message(
                    "Opened http://localhost:"@ + decimal(port as nat),
                ),
                BrowserOutcome::CommandFailed { message } => old(self).state().with_message(
                    "Browser error: "@ + message@,
                ),
                BrowserOutcome::Disconnected { error } => old(self).state().dropped(
                    "cmux socket dropped: "@ + error@,
                    now,
                ),
            }),
    {
        match outcome {
            BrowserOutcome::Opened => {
                let mut m = String::from_str("Opened http://localhost:");
                push_decimal(&mut m, port as u64);
                self.message = m;
            },
            BrowserOutcome::CommandFailed { message } => {
                let mut m = String::from_str("Browser error: ");
                push_str(&mut m, message.as_str());
                self.message = m;
            },
            BrowserOutcome::Disconnected { error } => {
                let mut m = String::from_str("cmux socket dropped: ");
                push_str(&mut m, error.as_str());
                self.disconnect(m, now);
            },
        }
    }

    /// Takes in how connecting to cmux went at `now`.
    pub fn finish_connect(&mut self, outcome: ConnectOutcome, now: u64)
        ensures
            final(self).state() == (match outcome {
                ConnectOutcome::NoSocket => old(self).state().backing_off(no_socket_message(), now),
                ConnectOutcome::Connected => AppView {
                    connected: true,
                    connection: ConnectionView::Ready,
                    message: default_status(),
                    reconnect_delay: INITIAL_RECONNECT_DELAY_MS,
                    ..old(self).state()
                },
                ConnectOutcome::ConnectFailed { error } => old(self).state().backing_off(
                    "cannot connect to cmux: "@ + error@,
                    now,
                ),
                ConnectOutcome::IdentifyFailed { error } => old(self).state().backing_off(
                    "cmux did not respond: "@ + error@,
                    now,
                ),
            }),
    {
        match outcome {
            ConnectOutcome::NoSocket => {
                let m = String::from_str(
                    "CMUX_TUI_SOCKET is not set. Launch this plugin from cmux, or run standalone with CMUX_TUI_SOCKET=/path/to/cmux-tui.sock cargo run.",
                );
                self.disconnect_with_backoff(m, now);
            },
            ConnectOutcome::Connected => {
                self.connected = true;
                self.connection = ConnectionStatus::Ready;
                self.message = String::from_str("↑↓ move • Enter open • k kill • r refresh");
                self.reconnect_delay = INITIAL_RECONNECT_DELAY_MS;
            },
            ConnectOutcome::ConnectFailed { error } => {
                let mut m = String::from_str("cannot connect to cmux: ");
                push_str(&mut m, error.as_str());
                self.disconnect_with_backoff(m, now);
            },
            ConnectOutcome::IdentifyFailed { error } => {
                let mut m = String::from_str("cmux did not respond: ");
                push_str(&mut m, error.as_str());
                self.disconnect_with_backoff(m, now);
            },
        }
    }
}

// ---------------------------------------------------------------------------
// Laws
// ---------------------------------------------------------------------------

/// Every step keeps the selection on a row (or at 0): key presses, scans,
/// and the messages and connection changes that outside work brings.
pub proof fn law_selection_stays_on_rows(
    s: AppView,
    key: Key,
    result: Result<Seq<RowView>, Seq<char>>,
    message: Seq<char>,
    now: u64,
)
    requires
        s.wf(),
    ensures
        s.on_key(key).0.wf(),
        s.refreshed(result, now).wf(),
        s.with_message(message).wf(),
        s.backing_off(message, now).wf(),
        s.dropped(message, now).wf(),
{
}

/// Ctrl-C quits in every state and changes nothing; Esc never quits.
pub proof fn law_quit_keys(s: AppView, modifiers: u8)
    ensures
        has_control(modifiers) ==> s.on_key(Key { code: KeyCode::Char('c'), modifiers }) == (
            s,
            ActionView::Quit,
        ),
        !(s.on_key(Key { code: KeyCode::Esc, modifiers }).1 is Quit),
{
}

/// A kill is only ever requested for the row captured when `k` was pressed,
/// confirmed with `y`, while a row with the same pid still listens on the
/// same port, and never for pid 0 or 1.
pub proof fn law_kill_is_guarded(s: AppView, key: Key)
    ensures
        s.on_key(key).1 matches ActionView::Kill(pid, process) ==> {
            &&& s.pending_kill matches Some(t)
            &&& t.pid == pid
            &&& t.process == process
            &&& pid > 1
            &&& has_pid_port(s.rows, pid, t.port)
            &&& (key.code == KeyCode::Char('y') || key.code == KeyCode::Char('Y'))
            &&& s.on_key(key).0.pending_kill is None
        },
{
}

/// After a scan at `now` the next one is due exactly the refresh interval
/// later; after a kill a scan is due at once.
pub proof fn law_refresh_schedule(
    s: AppView,
    result: Result<Seq<RowView>, Seq<char>>,
    now: u64,
    later: u64,
)
    requires
        now + REFRESH_EVERY_MS <= u64::MAX,
    ensures
        later >= s.refreshed(result, now).next_refresh <==> later >= now + REFRESH_EVERY_MS,
{
}

/// Each failed connection attempt schedules the next one after the current
/// delay and doubles the delay up to 8 s; the delay stays between 0.5 s and
/// 8 s, and nothing but the connection status and the schedule changes. (At
/// the end of the clock's range the next attempt is scheduled at the last
/// instant instead.)
pub proof fn law_backoff(s: AppView, message: Seq<char>, now: u64)
    requires
        INITIAL_RECONNECT_DELAY_MS <= s.reconnect_delay <= MAX_RECONNECT_DELAY_MS,
        now + s.reconnect_delay <= u64::MAX,
    ensures
        s.backing_off(message, now).next_reconnect == now + s.reconnect_delay,
        s.backing_off(message, now).reconnect_delay == (if 2 * s.reconnect_delay
            <= MAX_RECONNECT_DELAY_MS {
            2 * s.reconnect_delay
        } else {
            MAX_RECONNECT_DELAY_MS as int
        }),
        INITIAL_RECONNECT_DELAY_MS <= s.backing_off(message, now).reconnect_delay
            <= MAX_RECONNECT_DELAY_MS,
        s.backing_off(message, now).connection == ConnectionView::Reconnecting(message),
        s.backing_off(message, now).connected == s.connected,
        s.backing_off(message, now).rows == s.rows,
        s.backing_off(message, now).selected == s.selected,
        s.backing_off(message, now).pending_kill == s.pending_kill,
        s.backing_off(message, now).message == s.message,
        s.backing_off(message, now).next_refresh == s.next_refresh,
{
}

/// After the first scan, a scanned row is marked new exactly when no row of
/// the previous scan had its port; rows of the first scan are taken as they
/// came. A scan that finds the same ports as the one before marks nothing
/// new.
pub proof fn law_new_ports(s: AppView, rows: Seq<RowView>, now: u64)
    ensures
        s.has_scanned ==> forall|i: int|
            0 <= i < rows.len() ==> ((#[trigger] s.refreshed(Ok(rows), now).rows[i]).is_new <==> !(
            exists|j: int| 0 <= j < s.rows.len() && (#[trigger] s.rows[j]).port == rows[i].port)),
        !s.has_scanned ==> s.refreshed(Ok(rows), now).rows == rows,
        s.has_scanned && ports_of(rows) == ports_of(s.rows) ==> forall|i: int|
            0 <= i < rows.len() ==> !(#[trigger] s.refreshed(Ok(rows), now).rows[i]).is_new,
{
    if s.has_scanned {
        assert forall|i: int| 0 <= i < rows.len() implies (#[trigger] s.refreshed(
            Ok(rows),
            now,
        ).rows[i]).is_new <==> !(exists|j: int|
            0 <= j < s.rows.len() && (#[trigger] s.rows[j]).port == rows[i].port) by {
            assert(s.refreshed(Ok(rows), now).rows[i] == marked(rows[i], ports_of(s.rows)));
        }
    }
    if s.has_scanned && ports_of(rows) == ports_of(s.rows) {
        assert forall|i: int| 0 <= i < rows.len() implies !(#[trigger] s.refreshed(
            Ok(rows),
            now,
        ).rows[i]).is_new by {
            assert(ports_of(rows).contains(rows[i].port));
        }
    }
}

/// With no kill pending and a row selected, a plain `k` captures exactly the
/// selected row as the kill target and changes nothing else; a `y` after it
/// asks to signal that row's process (when its pid is above 1) and nothing
/// else.
pub proof fn law_kill_targets_selected_row(s: AppView)
    requires
        s.pending_kill is None,
        s.selected < s.rows.len(),
    ensures
        s.on_key(Key { code: KeyCode::Char('k'), modifiers: 0 }) == (
            AppView { pending_kill: Some(s.rows[s.selected as int]), ..s },
            ActionView::Idle,
        ),
        ({
            let t = s.on_key(Key { code: KeyCode::Char('k'), modifiers: 0 }).0;
            let r = s.rows[s.selected as int];
            &&& r.pid > 1 ==> t.on_key(Key { code: KeyCode::Char('y'), modifiers: 0 }).1
                == ActionView::Kill(r.pid, r.process)
            &&& r.pid <= 1 ==> t.on_key(Key { code: KeyCode::Char('y'), modifiers: 0 }).1
                is Idle
        }),
{
    let r = s.rows[s.selected as int];
    assert(!has_control(0u8)) by (bit_vector);
    assert(has_pid_port(s.rows, r.pid, r.port));
}

/// After a successful scan the selection stays on the same row index when
/// that index is still a row; otherwise it moves to the last row (or to 0
/// when no row is left). It never moves down.
pub proof fn law_scan_keeps_selection(s: AppView, rows: Seq<RowView>, now: u64)
    ensures
        s.selected < rows.len() ==> s.refreshed(Ok(rows), now).selected == s.selected,
        s.selected >= rows.len() && rows.len() > 0 ==> s.refreshed(Ok(rows), now).selected
            == rows.len() - 1,
        rows.len() == 0 ==> s.refreshed(Ok(rows), now).selected == 0,
        s.refreshed(Ok(rows), now).selected <= s.selected,
{
}

/// Enter, while connected with a row selected and no kill pending, asks to
/// open exactly the selected row's port and changes nothing.
pub proof fn law_enter_opens_selected_port(s: AppView, modifiers: u8)
    requires
        s.connected,
        s.pending_kill is None,
        s.selected < s.rows.len(),
    ensures
        s.on_key(Key { code: KeyCode::Enter, modifiers }) == (
            s,
            ActionView::OpenBrowser(s.rows[s.selected as int].port),
        ),
{
}

/// With no kill pending and the selection on a row, Down (or Ctrl-J) moves
/// it one row down and Up (or Ctrl-K) one row up, stopping at the last and
/// at the first row; nothing else changes. (The rows of an `App` are a
/// `Vec`, so there are never more of them than `usize` counts.)
pub proof fn law_arrows_move_one_row(s: AppView, modifiers: u8)
    requires
        s.pending_kill is None,
        s.rows.len() <= usize::MAX,
        s.selected < s.rows.len(),
    ensures
        ({
            let down = s.on_key(Key { code: KeyCode::Down, modifiers });
            let next = if s.selected + 1 < s.rows.len() {
                s.selected + 1
            } else {
                s.selected as int
            };
            &&& down.1 is Idle
            &&& down.0.selected == next
            &&& down.0 == AppView { selected: down.0.selected, ..s }
        }),
        ({
            let up = s.on_key(Key { code: KeyCode::Up, modifiers });
            let prev = if s.selected > 0 {
                s.selected - 1
            } else {
                0
            };
            &&& up.1 is Idle
            &&& up.0.selected == prev
            &&& up.0 == AppView { selected: up.0.selected, ..s }
        }),
        has_control(modifiers) ==> s.on_key(Key { code: KeyCode::Char('j'), modifiers }) == s.on_key(
            Key { code: KeyCode::Down, modifiers },
        ),
        has_control(modifiers) ==> s.on_key(Key { code: KeyCode::Char('k'), modifiers }) == s.on_key(
            Key { code: KeyCode::Up, modifiers },
        ),
{
}

/// While a kill awaits confirmation, `n`, `N` or Esc closes the prompt with
/// "Kill cancelled" and asks for nothing; any key but these, `y`, `Y` and
/// Ctrl-C leaves the state as it is and asks for nothing.
pub proof fn law_kill_prompt_keys(s: AppView, key: Key)
    requires
        s.pending_kill is Some,
        !(has_control(key.modifiers) && key.code == KeyCode::Char('c')),
        key.code != KeyCode::Char('y'),
        key.code != KeyCode::Char('Y'),
    ensures
        key.code == KeyCode::Char('n') || key.code == KeyCode::Char('N') || key.code
            == KeyCode::Esc ==> s.on_key(key) == (
            AppView { pending_kill: None, message: "Kill cancelled"@, ..s },
            ActionView::Idle,
        ),
        !(key.code == KeyCode::Char('n') || key.code == KeyCode::Char('N') || key.code
            == KeyCode::Esc) ==> s.on_key(key) == (s, ActionView::Idle),
{
}

/// With no kill pending, a plain `r` asks for a scan and changes nothing;
/// Enter while disconnected says so and asks for nothing.
pub proof fn law_refresh_key_and_offline_enter(s: AppView, modifiers: u8)
    requires
        s.pending_kill is None,
    ensures
        s.on_key(Key { code: KeyCode::Char('r'), modifiers: 0 }) == (s, ActionView::Refresh),
        !s.connected && s.selected < s.rows.len() ==> s.on_key(
            Key { code: KeyCode::Enter, modifiers },
        ) == (
            AppView { message: "Cannot open: cmux is disconnected"@, ..s },
            ActionView::Idle,
        ),
{
    assert(!has_control(0u8)) by (bit_vector);
}

/// A successful scan lists exactly the scanned rows, in order, each with its
/// port, process and pid, and clears any scan error; a failed scan clears
/// the rows, puts the selection at 0 and keeps the error. Neither touches
/// the connection, the message or a pending kill.
pub proof fn law_scan_result(
    s: AppView,
    rows: Seq<RowView>,
    error: Seq<char>,
    now: u64,
)
    ensures
        ({
            let t = s.refreshed(Ok(rows), now);
            &&& t.rows.len() == rows.len()
            &&& forall|i: int|
                0 <= i < rows.len() ==> (#[trigger] t.rows[i]).port == rows[i].port && t.rows[i].process
                    == rows[i].process && t.rows[i].pid == rows[i].pid
            &&& t.scan_error is None
            &&& t.has_scanned
            &&& t.connected == s.connected && t.connection == s.connection && t.message == s.message
                && t.pending_kill == s.pending_kill
        }),
        ({
            let t = s.refreshed(Err(error), now);
            &&& t.rows.len() == 0
            &&& t.selected == 0
            &&& t.scan_error == Some(error)
            &&& t.has_scanned
            &&& t.connected == s.connected && t.connection == s.connection && t.message == s.message
                && t.pending_kill == s.pending_kill
        }),
{
}

} // verus!
