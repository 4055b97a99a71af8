//! Core of a personal time tracker: the statements it sends to its relational
//! store, the streak calculation and the grouped statistics over sessions.
//!
//! - [`commands`] builds, for each operation, the statement and its positional
//!   parameters, and picks the answer out of the rows that come back.
//! - [`streak`] counts the consecutive goal-met days that lead up to the most
//!   recent one.
//! - [`stats`] groups sessions by calendar day and by project; [`totals`]
//!   proves that the groups add up to the sessions they were made from.
//! - [`db`] holds the schema, [`models`] the records, [`error`] the failures.
//! - [`text`] and [`calendar`] hold what the others need of texts and dates.
//!
//! Contracts speak of strings through their `Seq<char>` views, so a caller can
//! see the exact text and parameters of every statement.

pub mod calendar;
pub mod commands;
pub mod db;
pub mod error;
pub mod models;
pub mod stats;
pub mod streak;
pub mod text;
pub mod totals;
