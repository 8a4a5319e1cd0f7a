//! Classifier for garbage-collector log lines.
//!
//! A JavaScript engine's memory manager emits one line of text per
//! collection. [`classify::parse_log`] turns such a line into a structured
//! record: the collection phase, the elapsed-timing token, and the free-text
//! body. Lines that do not fit the fixed token layout, or that name no known
//! phase, fall back to an unclassified record that carries the whole line.

pub mod classify;
pub mod split;
