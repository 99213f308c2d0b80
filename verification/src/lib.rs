//! Verified core of the GladeSync multiplayer companion for Tiny Glade:
//! text handling, the wire protocol types, the session state of a host or a
//! client, save-glade selection and packaging, the save-sync timing rules,
//! the debug log buffer and the decisions of the overlay menu.

pub mod text;
pub mod protocol;
pub mod network;
pub mod saves;
pub mod hook;
pub mod console;
pub mod ui;
