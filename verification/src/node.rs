//! Commands that manage and inspect dataflow nodes.

pub mod info;
pub mod list;

use crate::node::info::{ControlRequest, Info};
use crate::node::list::List;
use crate::options::{CoordinatorOptions, DataflowSelector, OutputFormat};
use vstd::prelude::*;

verus! {

/// Manage and inspect dataflow nodes.
#[derive(Debug)]
pub enum Node {
    List(List),
    Info(Info),
}

/// What running a node command asks for.
#[derive(Debug)]
pub enum NodeAction {
    /// Start tracing, connect to the coordinator, resolve the dataflow, and
    /// print its nodes in the given format.
    ListNodes {
        coordinator: CoordinatorOptions,
        selector: DataflowSelector,
        format: OutputFormat,
    },
    /// Connect to the coordinator, resolve the dataflow, send the request if it is
    /// about one of its nodes, and print the reply in the given format.
    Query {
        coordinator: CoordinatorOptions,
        selector: DataflowSelector,
        request: ControlRequest,
        format: OutputFormat,
    },
}

impl Node {
    /// Runs the command that was chosen.
    pub fn execute(self) -> (action: NodeAction)
        ensures
            action == match self {
                Node::List(cmd) => cmd.action(),
                Node::Info(cmd) => cmd.action(),
            },
            match self {
                Node::List(cmd) => action == (NodeAction::ListNodes {
                    coordinator: cmd.coordinator,
                    selector: cmd.selector,
                    format: cmd.format,
                }),
                Node::Info(cmd) => action == (NodeAction::Query {
                    coordinator: cmd.coordinator,
                    selector: cmd.selector,
                    request: ControlRequest::SystemInfo { node: cmd.node_id },
                    format: cmd.format,
                }),
            },
    {
        match self {
            Node::List(cmd) => cmd.execute(),
            Node::Info(cmd) => cmd.execute(),
        }
    }
}

} // verus!
