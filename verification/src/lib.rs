//! A verified model of a fine-grained reactive system: signals that can be
//! leaked on purpose or kept alive by reference counting, and memos that
//! always notify their dependents.
pub mod memo_nodedup;
pub mod runtime;
pub mod signal;
pub mod signal_more;
pub mod laws;
