//! Batch command dispatch, in the manner of `xargs`: lines of input are
//! grouped into batches of a fixed size, and each batch is made into one
//! command invocation, by appending its words to a fixed list of arguments or
//! by substituting it for a placeholder in them.
//!
//! The library decides and computes; it reads no input and starts no process.
//! A caller reports what it read and how its commands went to a
//! [`dispatch::Dispatcher`], and is told what to do next.
//!
//! - [`text`]: strings as sequences of characters; splitting into words,
//!   joining, replacing a token.
//! - [`batch`]: what the batches of a sequence of lines are, all at once and
//!   line by line.
//! - [`options`]: the configuration, and the invocation it makes of a batch.
//! - [`dispatch`]: the course of a run, event by event.
//! - [`error`]: the ways in which a run can fail, and its exit status.

pub mod batch;
pub mod dispatch;
pub mod error;
pub mod options;
pub mod text;
