//! Reusable message templates ("macros") with positional `{N}` placeholders,
//! and the decisions taken when a macro is created, listed and invoked.

pub mod params;
pub mod models;
pub mod invocation;
pub mod creation;
pub mod listing;
