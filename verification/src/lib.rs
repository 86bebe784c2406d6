//! Splits packet captures into one output file per packet.
//!
//! The crate holds the decisions of the splitting pipeline and proves them:
//! how output files are named, how one capture is walked record by record,
//! and how an input is fanned out into independent workers. Reading captures
//! and writing files is left to the caller, who performs the actions that the
//! library asks for and reports back what happened.

pub mod coordinator;
pub mod decimal;
pub mod input;
pub mod naming;
pub mod run;
pub mod splitter;
