//! The protocol of a client of beanstalkd, a work queue.
//!
//! The library turns commands into requests and replies into results. It does no I/O: an
//! [`exchange::Exchange`] says what is to be written or read next and is told what came of it.
//!
//! - [`command`]: the bytes of the requests;
//! - [`reply`]: what the lines and bodies of the replies mean;
//! - [`exchange`]: a request and its reply, step by step;
//! - [`types`] and [`stats`]: what the commands hand back;
//! - [`text`], [`decimal`] and [`encoding`]: the operations on text that the others use;
//! - [`request`]: how a server reads a request;
//! - [`laws`], [`request_laws`] and [`reply_laws`]: what holds of the protocol as a whole, of the
//!   requests and of the replies.
pub mod command;
pub mod decimal;
pub mod encoding;
pub mod exchange;
pub mod laws;
pub mod reply;
pub mod reply_laws;
pub mod request;
pub mod request_laws;
pub mod stats;
pub mod text;
pub mod types;

pub use crate::stats::Stats;
pub use crate::types::{Error, IgnoreResult, Job, PutResult, ReleaseResult, ReserveResult};
