//! The rule engine of a directory-watching command runner.
//!
//! A rule names a directory to watch, says whether its command runs once per
//! changed file or once per poll cycle, and gives the command as a template.
//! This crate reads rules from text, decides for every scan of the directory
//! which files count as changed, and renders the command lines to run. It
//! neither scans nor runs anything itself: a scan is handed in as a list of
//! file descriptions, and the command lines are handed back.
//!
//! - [`witd`] holds the rule ([`witd::Command`]), its grammar, the rendering
//!   of its template, and the change tracker ([`witd::Witd`]).
//! - [`session`] turns the text given at start-up into one tracker per rule.
//! - [`types`] holds the description of a file.
//! - [`text`] holds the character-level functions that the others rest on.

pub mod session;
pub mod text;
pub mod traits;
pub mod types;
pub mod witd;
