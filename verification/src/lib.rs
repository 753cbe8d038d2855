//! The verified core of a command-line client for a board service: the
//! locally cached entity snapshot and its queries, the persisted file forms
//! of the snapshot and the user's preferences, the card listing query
//! builder, and the resolution logic behind card edits and moves.

pub mod codec;
pub mod command;
pub mod models;
pub mod text;
pub mod timefmt;
pub mod wire;
