//! Populates built output files with resolved environment variables.
//!
//! A project is built once with a placeholder expression standing in for the
//! environment; later, per deployment, every occurrence of that placeholder is
//! replaced by a serialized map of the variables that resolved to a value.
//! This crate holds the rules of that population step as verified functions
//! on plain values; reading and writing files is left to the caller.
//!
//! A run goes through the modules in this order:
//!
//! - [`cli`]: the arguments, and the checks made on them before anything is
//!   changed;
//! - [`env`]: the variables, and the environment that the permitted names
//!   resolve to;
//! - [`json`]: the environment as one line of JSON;
//! - [`populate`]: which matched paths are output files, and where their
//!   backups are;
//! - [`backup`]: what a run does to an output file and its backup;
//! - [`rewrite`]: the text of an output file with the placeholder replaced;
//!   [`quotes`] holds what follows for a text with one placeholder.
//!
//! [`text`] has the searches on character sequences that the others use, and
//! [`failure`] the reasons for which a run stops.

pub mod backup;
pub mod cli;
pub mod env;
pub mod failure;
pub mod json;
pub mod populate;
pub mod quotes;
pub mod rewrite;
pub mod text;
