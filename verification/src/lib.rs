//! A single-threaded reactor for one-shot readiness events: the decisions of
//! an accept / read / write / teardown cycle, with the I/O left to the caller.

pub mod action;
pub mod connection;
pub mod dispatch;
pub mod framer;
pub mod interest;
pub mod laws;
pub mod table;
