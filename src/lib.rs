//! An age widget's core: grouping separators for numbers, a calendar model,
//! elapsed-time breakdowns, the query-string codec and the state store.

pub mod calendar;
pub mod decimal;
pub mod duration;
pub mod query;
pub mod separators;
pub mod state;
