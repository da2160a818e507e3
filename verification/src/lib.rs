//! A class-assignment tracker. Classes hold the assignments that are still
//! to do, each with the day it is due, and the names of those that are done.
//! The whole store is kept as a text document, one comma-delimited line for
//! each class, and is changed by the commands of a session.
//!
//! Every function states in its contract what it returns or changes, over
//! plain values: texts are sequences of characters, a class is a record of
//! such, the store is the list of its classes and the map from their ids.
//! Dates, coloured text and the clock come from outside crates, behind a few
//! functions whose contracts are stated and not proved; each says so.

pub mod assignment;
pub mod class;
pub mod classes;
pub mod date;
pub mod decimal;
pub mod document;
pub mod error;
pub mod help;
pub mod indent;
pub mod input;
pub mod klog;
pub mod listing;
pub mod report;
pub mod roundtrip;
pub mod session;
pub mod sorting;
pub mod style;
pub mod text;
