//! Listening TCP ports for the cmux sidebar: parsing `lsof` output, ordering
//! and marking rows, the text of the sidebar, and the decisions of the
//! sidebar's event loop.
pub mod text;
pub mod ports;
pub mod ui;
pub mod screen;
pub mod sidebar;
pub mod panes;
pub mod layout;
