//! The options that the commands share.

use vstd::prelude::*;

verus! {

/// Which dataflow a command looks at: by UUID or by name, or the only one that
/// runs when neither is given.
#[derive(Debug)]
pub struct DataflowSelector {
    pub dataflow: Option<String>,
}

/// Which outputs of a dataflow a command looks at: all of them when `data` is
/// empty.
#[derive(Debug)]
pub struct TopicSelector {
    pub selector: DataflowSelector,
    pub data: Vec<String>,
}

/// Where the coordinator listens.
#[derive(Debug)]
pub struct CoordinatorOptions {
    /// The address in its textual form.
    pub coordinator_addr: String,
    pub coordinator_port: u16,
}

/// How a command prints its answer.
#[derive(Debug, Clone, Copy, PartialEq, Eq, Structural)]
pub enum OutputFormat {
    Table,
    Json,
}

} // verus!
