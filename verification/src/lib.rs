//! Builds keyboard-layout descriptions for a windowing system's input
//! subsystem from a flat table of per-key Unicode code-point descriptors.
//!
//! The pipeline has three stages: the descriptor parser turns table rows
//! into validated [`table::Key`] records, the layout builder aggregates them
//! into a [`layout::Keyboard`], and the emitter serializes the keyboard as a
//! four-level symbol table in the target textual syntax.

pub mod descriptor;
pub mod layout;
pub mod table;
pub mod xkb;

pub use descriptor::ResolveError;
pub use table::Key;
pub use table::KeyRow;
pub use table::ParseError;
pub use table::parse_table;
