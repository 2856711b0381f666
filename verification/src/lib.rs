//! Answers "what process is listening on port X?": parsers for the text that
//! `ss` and `lsof` print, aggregation of the sockets they report into logical
//! listeners, and a rule-based guess at what each listener is for.
//!
//! The library decides and computes; it runs no program, reads no clock and
//! prints nothing. Its caller runs the tool that [`collect::collect_listeners`]
//! names, hands back what came of it, and prints what [`run::run`] tells it
//! to print.
//!
//! Every executable function states what it returns over the views of its
//! arguments, and Verus proves that it does. One fact about the standard
//! library is assumed without proof: what `String::push` does, in [`text`].
//!
//! - [`text`], [`split`], [`search`], [`number`], [`order`]: characters,
//!   lines and words, searching, decimal numbers, the order of texts.
//! - [`endpoint`]: the port at the end of a socket address.
//! - [`listener`]: one observed socket; order and uniqueness of a list.
//! - [`lsof`], [`ss`]: the two parsers. [`blocks`]: why the order of complete
//!   process blocks does not matter to what `lsof` output reports.
//! - [`role`]: the rules that guess what a listener is for.
//! - [`aggregate`]: logical listeners. [`grouping`]: what they are, and why
//!   they do not depend on the order of the listeners.
//! - [`collect`]: which tool to run next, and what its outcome means.
//! - [`report`], [`output`]: the text report and the values of the JSON
//!   report. [`run`]: the course of one invocation.

pub mod aggregate;
pub mod blocks;
pub mod collect;
pub mod endpoint;
pub mod grouping;
pub mod listener;
pub mod lsof;
pub mod number;
pub mod order;
pub mod output;
pub mod report;
pub mod role;
pub mod run;
pub mod search;
pub mod split;
pub mod ss;
pub mod text;
