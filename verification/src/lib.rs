//! Application index and fuzzy ranking engine for a keyboard-driven launcher.
//!
//! The library scans descriptor files and executable directories into an
//! in-memory index of launchable entries, persists that index to a binary
//! cache, ranks the entries against an interactively typed query with a
//! fuzzy matcher, derives the small visible window around the selection
//! cursor, and extracts the executable token of a chosen entry.

pub mod cache;
pub mod delegate;
pub mod desktop;
pub mod dirutils;
pub mod fuzzy;
pub mod icons;
pub mod rank;
pub mod select;
pub mod state;
pub mod strutil;
