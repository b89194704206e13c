//! Where a browser tab opens: the focused pane of cmux's workspace tree.
use vstd::prelude::*;
use crate::text::{decimal, push_decimal};

verus! {

/// A screen of a workspace, as far as choosing a pane needs it.
pub struct Screen {
    pub active: bool,
    pub active_pane: u64,
}

/// A workspace of cmux and its screens.
pub struct Workspace {
    pub active: bool,
    pub screens: Vec<Screen>,
}

/// The workspaces that cmux reports.
pub struct Tree {
    pub workspaces: Vec<Workspace>,
}

/// The index of the first `true`.
pub open spec fn first_true(flags: Seq<bool>) -> Option<int>
    decreases flags.len(),
{
    if flags.len() == 0 {
        None
    } else if flags[0] {
        Some(0)
    } else {
        match first_true(flags.drop_first()) {
            Some(i) => Some(i + 1),
            None => None,
        }
    }
}

/// The first active entry, or else the first entry.
pub open spec fn chosen(flags: Seq<bool>) -> Option<int> {
    match first_true(flags) {
        Some(i) => Some(i),
        None => if flags.len() > 0 {
            Some(0)
        } else {
            None
        },
    }
}

proof fn lemma_first_true_at(flags: Seq<bool>, i: int)
    requires
        0 <= i <= flags.len(),
        forall|k: int| 0 <= k < i ==> !#[trigger] flags[k],
        i == flags.len() || flags[i],
    ensures
        first_true(flags) == (if i < flags.len() { Some(i) } else { None::<int> }),
    decreases i,
{
    if i > 0 {
        lemma_first_true_at(flags.drop_first(), i - 1);
    }
}

/// Workspaces and screens: each is active or not.
pub trait Active {
    spec fn active_flag(&self) -> bool;

    fn is_active(&self) -> (b: bool)
        ensures
            b == self.active_flag(),
    ;
}

impl Active for Workspace {
    open spec fn active_flag(&self) -> bool {
        self.active
    }

    fn is_active(&self) -> (b: bool) {
        self.active
    }
}

impl Active for Screen {
    open spec fn active_flag(&self) -> bool {
        self.active
    }

    fn is_active(&self) -> (b: bool) {
        self.active
    }
}

/// Which of `items` are active, in order.
pub open spec fn flags_of<T: Active>(items: Seq<T>) -> Seq<bool> {
    items.map_values(|x: T| x.active_flag())
}

/// The active pane of the chosen screen of the chosen workspace, where a
/// workspace or screen is chosen by being active, or else by being first.
pub open spec fn focused_pane_of(tree: Tree) -> Option<u64> {
    match chosen(flags_of(tree.workspaces@)) {
        None => None,
        Some(i) => {
            let w = tree.workspaces@[i];
            match chosen(flags_of(w.screens@)) {
                None => None,
                Some(j) => Some(w.screens@[j].active_pane),
            }
        },
    }
}

/// The index of the first active item, or else 0 when there is any item.
fn choose_active<T: Active>(items: &Vec<T>) -> (r: Option<usize>)
    ensures
        r matches Some(i) ==> chosen(flags_of(items@)) == Some(i as int),
        r is None ==> chosen(flags_of(items@)) is None,
        r matches Some(i) ==> i < items@.len(),
{
    let ghost flags = flags_of(items@);
    let mut i: usize = 0;
    while i < items.len()
        invariant
            i <= items@.len(),
            flags == flags_of(items@),
            forall|k: int| 0 <= k < i ==> !#[trigger] flags[k],
        decreases items@.len() - i,
    {
        if items[i].is_active() {
            proof {
                lemma_first_true_at(flags, i as int);
            }
            return Some(i);
        }
        i = i + 1;
    }
    proof {
        lemma_first_true_at(flags, i as int);
    }
    if items.len() > 0 {
        Some(0)
    } else {
        None
    }
}

/// The pane that a new browser tab goes to.
pub fn focused_pane(tree: &Tree) -> (r: Option<u64>)
    ensures
        r == focused_pane_of(*tree),
{
    let i = match choose_active(&tree.workspaces) {
        Some(i) => i,
        None => return None,
    };
    let w = &tree.workspaces[i];
    match choose_active(&w.screens) {
        Some(j) => Some(w.screens[j].active_pane),
        None => None,
    }
}

pub open spec fn url_of(port: u16) -> Seq<char> {
    "http://localhost:"@ + decimal(port as nat)
}

/// The address of a local port.
pub fn browser_url(port: u16) -> (u: String)
    ensures
        u@ == url_of(port),
{
    let mut u = String::from_str("http://localhost:");
    push_decimal(&mut u, port as u64);
    u
}

/// Where and what to open.
pub struct BrowserTab {
    pub pane: u64,
    pub url: String,
}

/// The tab to open for `port`: the focused pane and the port's address, or
/// the error that cmux has no focused pane.
pub fn browser_target(tree: &Tree, port: u16) -> (r: Result<BrowserTab, String>)
    ensures
        match focused_pane_of(*tree) {
            Some(p) => r matches Ok(tab) && tab.pane == p && tab.url@ == url_of(port),
            None => r matches Err(m) && m@ == "cmux has no focused pane"@,
        },
{
    match focused_pane(tree) {
        Some(pane) => Ok(BrowserTab { pane, url: browser_url(port) }),
        None => Err(String::from_str("cmux has no focused pane")),
    }
}

/// Which environment variable names the cmux socket.
pub enum SocketChoice {
    /// `CMUX_TUI_SOCKET`.
    Tui,
    /// The older `CMUX_MUX_SOCKET`.
    Mux,
    /// Neither is set to a non-empty value.
    Missing,
}

/// Prefers `CMUX_TUI_SOCKET` and falls back to `CMUX_MUX_SOCKET`; each
/// counts only when set and non-empty.
pub fn choose_socket(tui_set: bool, mux_set: bool) -> (c: SocketChoice)
    ensures
        tui_set ==> c is Tui,
        !tui_set && mux_set ==> c is Mux,
        !tui_set && !mux_set ==> c is Missing,
{
    if tui_set {
        SocketChoice::Tui
    } else if mux_set {
        SocketChoice::Mux
    } else {
        SocketChoice::Missing
    }
}

} // verus!
