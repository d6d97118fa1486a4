//! Inspection of `.zip` archives for extraction hazards, before they are opened.
//!
//! An audit goes through these modules in turn:
//!
//! - [`cli`] reads the command line;
//! - [`select`] chooses the archives that the inputs lead to;
//! - [`archive`] reads the entries of an archive, and [`survey`] counts the hazards
//!   among them, which [`path`] tells from their paths;
//! - [`finding`] holds a survey against the thresholds;
//! - [`ranking`] puts the findings in order, and [`report`] renders them.
//!
//! [`text`], [`number`], [`order`] and [`lists`] are what these are built on. What
//! holds of the library as a whole stands in [`text_laws`], [`path_laws`],
//! [`survey_laws`] and [`report_laws`]. What each operation does with its inputs, told
//! from these alone, stands in [`cli_rules`], [`select_rules`], [`path_rules`],
//! [`survey_rules`] and [`report_rules`].

pub mod archive;
pub mod cli;
pub mod cli_rules;
pub mod finding;
pub mod lists;
pub mod number;
pub mod order;
pub mod path;
pub mod path_laws;
pub mod path_rules;
pub mod ranking;
pub mod report;
pub mod report_laws;
pub mod report_rules;
pub mod select;
pub mod select_rules;
pub mod survey;
pub mod survey_laws;
pub mod survey_rules;
pub mod text;
pub mod text_laws;
