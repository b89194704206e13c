//! What the sidebar shows, as the event loop hands it to the drawing code.
use vstd::prelude::verus;
use crate::ports::PortRow;

verus! {

/// What the sidebar shows.
pub struct View<'a> {
    pub rows: &'a [PortRow],
    pub selected: usize,
    pub scan_error: Option<&'a str>,
    pub status: ViewStatus<'a>,
}

/// The state that the bottom line reports.
#[derive(Clone, Copy)]
pub enum ViewStatus<'a> {
    Ready { message: &'a str },
    Reconnecting { message: &'a str },
    ConfirmKill { row: &'a PortRow },
}

} // verus!
