//! Show information about a dataflow node.

use crate::node::NodeAction;
use crate::options::{CoordinatorOptions, DataflowSelector, OutputFormat};
use crate::text::decimal;
use vstd::prelude::*;

verus! {

/// Show information about a dataflow node.
#[derive(Debug)]
pub struct Info {
    pub selector: DataflowSelector,
    pub node_id: String,
    /// Output format
    pub format: OutputFormat,
    pub coordinator: CoordinatorOptions,
}

/// A request to the coordinator.
#[derive(Debug)]
pub enum ControlRequest {
    /// Asks what a node uses of the machine.
    SystemInfo { node: String },
}

/// The coordinator's reply, as far as this command tells replies apart.
#[derive(Debug)]
pub enum ControlRequestReply {
    NodeSystemInfo {
        node: String,
        /// The processor usage in percent, written with two decimals.
        cpu: String,
        /// The memory usage in bytes.
        memory: u64,
    },
    Error(String),
    /// Any other reply, in its debug form.
    Other(String),
}

/// What a node uses of the machine.
#[derive(Debug)]
pub struct NodeInfo {
    pub node: String,
    /// The processor usage in percent, written with two decimals.
    pub cpu: String,
    /// The memory usage in bytes.
    pub memory: u64,
}

/// Information about a node, ready to be printed.
#[derive(Debug)]
pub enum Shown {
    /// Lines of text, to be printed as they are.
    Text(String),
    /// Information to be printed as one line of JSON.
    Json(NodeInfo),
}

/// Why there is nothing to show.
#[derive(Debug)]
pub enum InfoError {
    /// The selected dataflow has no node of that name.
    UnknownNode(String),
    /// The coordinator answered with an error.
    Coordinator(String),
    /// The coordinator answered something else, given in its debug form.
    UnexpectedReply(String),
}

/// The lines that are printed for a node.
pub open spec fn info_text(node: Seq<char>, cpu: Seq<char>, memory: nat) -> Seq<char> {
    "Node: "@ + node + "\nCPU Usage: "@ + cpu + "%\nMemory Usage: "@ + crate::text::decimal_text(
        memory,
    ) + " bytes\n"@
}

/// Whether one of the nodes is called `name`.
pub open spec fn has_node(nodes: Seq<String>, name: Seq<char>) -> bool {
    exists|i: int| 0 <= i < nodes.len() && (#[trigger] nodes[i])@ == name
}

impl Info {
    /// Asking the coordinator about the node of the selected dataflow, and showing
    /// the reply in the chosen format.
    pub open spec fn action(self) -> NodeAction {
        NodeAction::Query {
            coordinator: self.coordinator,
            selector: self.selector,
            request: ControlRequest::SystemInfo { node: self.node_id },
            format: self.format,
        }
    }

    /// Says whom to ask about which dataflow, what, and how to show the reply.
    pub fn execute(self) -> (action: NodeAction)
        ensures
            action == self.action(),
            action == (NodeAction::Query {
                coordinator: self.coordinator,
                selector: self.selector,
                request: ControlRequest::SystemInfo { node: self.node_id },
                format: self.format,
            }),
    {
        NodeAction::Query {
            coordinator: self.coordinator,
            selector: self.selector,
            request: ControlRequest::SystemInfo { node: self.node_id },
            format: self.format,
        }
    }
}

impl ControlRequest {
    /// Lets the request through if the node that it asks about is one of `nodes`,
    /// the ids of the nodes of the selected dataflow.
    pub fn among(self, nodes: &Vec<String>) -> (checked: Result<ControlRequest, InfoError>)
        ensures
            match self {
                ControlRequest::SystemInfo { node } => if has_node(nodes@, node@) {
                    checked == Ok::<ControlRequest, InfoError>(self)
                } else {
                    checked == Err::<ControlRequest, InfoError>(InfoError::UnknownNode(node))
                },
            },
            match self {
                ControlRequest::SystemInfo { node } => checked is Ok <==> nodes@.map_values(
                    |id: String| id@,
                ).contains(node@),
            },
    {
        match self {
            ControlRequest::SystemInfo { node } => {
                proof {
                    law_node_is_looked_up_by_name(nodes@, node@);
                }
                let mut i: usize = 0;
                while i < nodes.len()
                    invariant
                        i <= nodes.len(),
                        self == (ControlRequest::SystemInfo { node }),
                        has_node(nodes@, node@) <==> nodes@.map_values(
                            |id: String| id@,
                        ).contains(node@),
                        forall|j: int| 0 <= j < i ==> (#[trigger] nodes@[j])@ != node@,
                    decreases nodes.len() - i,
                {
                    if nodes[i] == node {
                        assert(nodes@[i as int]@ == node@);
                        return Ok(ControlRequest::SystemInfo { node });
                    }
                    i += 1;
                }
                Err(InfoError::UnknownNode(node))
            },
        }
    }
}

/// Turns the coordinator's reply into what to print in the given format.
pub fn info(reply: ControlRequestReply, format: OutputFormat) -> (shown: Result<Shown, InfoError>)
    ensures
        match reply {
            ControlRequestReply::NodeSystemInfo { node, cpu, memory } => match format {
                OutputFormat::Table => shown matches Ok(Shown::Text(text)) && text@ == info_text(
                    node@,
                    cpu@,
                    memory as nat,
                ),
                OutputFormat::Json => shown matches Ok(Shown::Json(entry)) && entry.node@ == node@
                    && entry.cpu@ == cpu@ && entry.memory == memory,
            },
            ControlRequestReply::Error(err) => shown == Err::<Shown, InfoError>(
                InfoError::Coordinator(err),
            ),
            ControlRequestReply::Other(other) => shown == Err::<Shown, InfoError>(
                InfoError::UnexpectedReply(other),
            ),
        },
{
    match reply {
        ControlRequestReply::NodeSystemInfo { node, cpu, memory } => match format {
            OutputFormat::Table => {
                let mut text: String = "Node: ".to_owned();
                text.append(node.as_str());
                text.append("\nCPU Usage: ");
                text.append(cpu.as_str());
                text.append("%\nMemory Usage: ");
                text.append(decimal(memory).as_str());
                text.append(" bytes\n");
                Ok(Shown::Text(text))
            },
            OutputFormat::Json => Ok(Shown::Json(NodeInfo { node, cpu, memory })),
        },
        ControlRequestReply::Error(err) => Err(InfoError::Coordinator(err)),
        ControlRequestReply::Other(other) => Err(InfoError::UnexpectedReply(other)),
    }
}

impl InfoError {
    /// The message of the error.
    pub open spec fn text(self) -> Seq<char> {
        match self {
            InfoError::UnknownNode(node) => "no node in the selected dataflow is called "@ + node@,
            InfoError::Coordinator(err) => err@,
            InfoError::UnexpectedReply(other) => "unexpected list dataflow reply: "@ + other@,
        }
    }

    /// Writes the message of the error.
    pub fn message(&self) -> (message: String)
        ensures
            message@ == self.text(),
            match *self {
                InfoError::UnknownNode(node) => message@
                    == "no node in the selected dataflow is called "@ + node@,
                InfoError::Coordinator(err) => message@ == err@,
                InfoError::UnexpectedReply(other) => message@
                    == "unexpected list dataflow reply: "@ + other@,
            },
    {
        match self {
            InfoError::UnknownNode(node) => {
                let mut message: String = "no node in the selected dataflow is called ".to_owned();
                message.append(node.as_str());
                message
            },
            InfoError::Coordinator(err) => err.clone(),
            InfoError::UnexpectedReply(other) => {
                let mut message: String = "unexpected list dataflow reply: ".to_owned();
                message.append(other.as_str());
                message
            },
        }
    }
}

/// A node is found exactly where its name is among the names of the nodes, as a
/// whole, wherever it stands.
pub proof fn law_node_is_looked_up_by_name(nodes: Seq<String>, name: Seq<char>)
    ensures
        has_node(nodes, name) <==> nodes.map_values(|id: String| id@).contains(name),
{
    let ids = nodes.map_values(|id: String| id@);
    if has_node(nodes, name) {
        let i = choose|i: int| 0 <= i < nodes.len() && (#[trigger] nodes[i])@ == name;
        assert(ids[i] == name);
    }
    if ids.contains(name) {
        let i = choose|i: int| 0 <= i < ids.len() && ids[i] == name;
        assert(nodes[i]@ == name);
    }
}

/// The lines name the node, its processor usage and its memory usage in bytes,
/// each as it is and behind its label.
pub proof fn law_info_lines_give_the_usage(node: Seq<char>, cpu: Seq<char>, memory: nat)
    ensures
        info_text(node, cpu, memory) == "Node: "@ + node + "\n"@ + "CPU Usage: "@ + cpu + "%\n"@
            + "Memory Usage: "@ + crate::text::decimal_text(memory) + " bytes\n"@,
{
    reveal_strlit("\n");
    reveal_strlit("%\n");
    reveal_strlit("CPU Usage: ");
    reveal_strlit("\nCPU Usage: ");
    reveal_strlit("Memory Usage: ");
    reveal_strlit("%\nMemory Usage: ");
    assert("\nCPU Usage: "@ =~= "\n"@ + "CPU Usage: "@);
    assert("%\nMemory Usage: "@ =~= "%\n"@ + "Memory Usage: "@);
    assert(info_text(node, cpu, memory) =~= "Node: "@ + node + "\n"@ + "CPU Usage: "@ + cpu
        + "%\n"@ + "Memory Usage: "@ + crate::text::decimal_text(memory) + " bytes\n"@);
}

} // verus!
