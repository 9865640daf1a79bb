//! The decisions behind the commands that inspect a running dataflow: which
//! nodes it has, what one node uses of the machine, and how often each of its
//! outputs is published.
//!
//! Nothing in this library reads a clock, a socket or a terminal. Times are
//! whole nanoseconds counted from a moment that the caller chose, texts are
//! strings, and every answer is a value that the caller prints, sends or draws.

pub mod hz;
pub mod node;
pub mod options;
pub mod text;
pub mod topic;
