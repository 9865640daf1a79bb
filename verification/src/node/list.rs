//! List nodes of a running dataflow.

use crate::node::NodeAction;
use crate::options::{CoordinatorOptions, DataflowSelector, OutputFormat};
use crate::text::decimal;
use std::io::Write;
use vstd::prelude::*;

verus! {

/// List nodes of a running dataflow.
#[derive(Debug)]
pub struct List {
    pub selector: DataflowSelector,
    /// Output format
    pub format: OutputFormat,
    pub coordinator: CoordinatorOptions,
}

impl List {
    /// Listing the nodes of the selected dataflow in the chosen format.
    pub open spec fn action(self) -> NodeAction {
        NodeAction::ListNodes {
            coordinator: self.coordinator,
            selector: self.selector,
            format: self.format,
        }
    }

    /// Says which dataflow to list, and how.
    pub fn execute(self) -> (action: NodeAction)
        ensures
            action == self.action(),
            action == (NodeAction::ListNodes {
                coordinator: self.coordinator,
                selector: self.selector,
                format: self.format,
            }),
    {
        NodeAction::ListNodes {
            coordinator: self.coordinator,
            selector: self.selector,
            format: self.format,
        }
    }
}

/// What is listed of a node.
#[derive(Debug)]
pub struct OutputEntry {
    pub node: String,
    pub status: String,
    pub pid: Option<u32>,
    pub cpu: Option<String>,
    pub memory: Option<String>,
}

/// The nodes of a dataflow, ready to be printed.
#[derive(Debug)]
pub enum Listing {
    /// A table, to be printed as it is.
    Table(Vec<u8>),
    /// Entries, to be printed as one line of JSON each.
    Json(Vec<OutputEntry>),
}

impl OutputEntry {
    /// Whether this entry is the one listed for the node called `node`: it runs,
    /// and nothing more is known of it, because the coordinator reports no
    /// process of a node and no usage.
    pub open spec fn lists(self, node: Seq<char>) -> bool {
        &&& self.node@ == node
        &&& self.status@ == "Running"@
        &&& self.pid is None
        &&& self.cpu is None
        &&& self.memory is None
    }

    /// The entry's line of the table, with tabs between its columns.
    pub open spec fn line(self) -> Seq<char> {
        self.node@ + "\t"@ + self.status@ + "\t"@ + pid_cell(self.pid) + "\t"@ + text_cell(self.cpu)
            + "\t"@ + text_cell(self.memory) + "\n"@
    }
}

/// The cell for a process id, a dash where there is none.
pub open spec fn pid_cell(pid: Option<u32>) -> Seq<char> {
    match pid {
        Some(pid) => crate::text::decimal_text(pid as nat),
        None => "-"@,
    }
}

/// The cell for a text, a dash where there is none.
pub open spec fn text_cell(text: Option<String>) -> Seq<char> {
    match text {
        Some(text) => text@,
        None => "-"@,
    }
}

/// A header, then a line for each entry, with tabs between the columns.
pub open spec fn table_source(entries: Seq<OutputEntry>) -> Seq<char>
    decreases entries.len(),
{
    if entries.len() == 0 {
        "NODE\tSTATUS\tPID\tCPU\tMEMORY\n"@
    } else {
        table_source(entries.drop_last()) + entries.last().line()
    }
}

/// Whether `entries` has one entry for each of `nodes`, in that order.
pub open spec fn lists_all(entries: Seq<OutputEntry>, nodes: Seq<String>) -> bool {
    &&& entries.len() == nodes.len()
    &&& forall|i: int| 0 <= i < nodes.len() ==> (#[trigger] entries[i]).lists(nodes[i]@)
}

/// The lines of the table for running nodes of which nothing more is known,
/// under the header: the table's text as it follows from the node ids alone.
pub open spec fn nodes_source(nodes: Seq<String>) -> Seq<char>
    decreases nodes.len(),
{
    if nodes.len() == 0 {
        "NODE\tSTATUS\tPID\tCPU\tMEMORY\n"@
    } else {
        nodes_source(nodes.drop_last()) + nodes.last()@ + "\tRunning\t-\t-\t-\n"@
    }
}

/// The table of the listed nodes has the header and one line for each node, in
/// order, which names the node and says that it runs.
pub proof fn law_listed_nodes_make_the_table(entries: Seq<OutputEntry>, nodes: Seq<String>)
    requires
        lists_all(entries, nodes),
    ensures
        table_source(entries) == nodes_source(nodes),
    decreases nodes.len(),
{
    if nodes.len() > 0 {
        let shorter = entries.drop_last();
        assert forall|i: int| 0 <= i < nodes.len() - 1 implies (#[trigger] shorter[i]).lists(
            nodes.drop_last()[i]@,
        ) by {
            assert(entries[i].lists(nodes[i]@));
        }
        law_listed_nodes_make_the_table(shorter, nodes.drop_last());
        let last = entries.last();
        assert(entries[nodes.len() - 1].lists(nodes.last()@));
        reveal_strlit("\t");
        reveal_strlit("\n");
        reveal_strlit("-");
        reveal_strlit("Running");
        reveal_strlit("\tRunning\t-\t-\t-\n");
        assert(last.line() =~= nodes.last()@ + "\tRunning\t-\t-\t-\n"@);
        assert(table_source(entries) =~= nodes_source(nodes));
    }
}

/// What a `tabwriter::TabWriter` with its default settings hands on once it is
/// flushed, of the bytes written to it: the text with its tabs replaced by
/// spaces so that the columns align.
pub uninterp spec fn tab_aligned(text: Seq<u8>) -> Seq<u8>;

/// Writes `text` to a `tabwriter::TabWriter` over a byte vector, flushes it and
/// takes the vector back. Claimed is that the outcome depends on the bytes of
/// `text` alone. How wide a character is drawn, and with it how many spaces
/// stand where, is left unsaid.
#[verifier::external_body]
fn align_tabs(text: &[u8]) -> (aligned: Vec<u8>)
    ensures
        aligned@ == tab_aligned(text@),
{
    let mut writer = tabwriter::TabWriter::new(Vec::new());
    writer.write_all(text).unwrap();
    writer.flush().unwrap();
    writer.into_inner().unwrap()
}

/// Lists the nodes with the given ids.
pub fn node_entries(nodes: Vec<String>) -> (entries: Vec<OutputEntry>)
    ensures
        lists_all(entries@, nodes@),
        entries@.len() == nodes@.len(),
        forall|i: int|
            #![trigger entries@[i]]
            0 <= i < nodes@.len() ==> {
                &&& entries@[i].node@ == nodes@[i]@
                &&& entries@[i].status@ == "Running"@
                &&& entries@[i].pid is None
                &&& entries@[i].cpu is None
                &&& entries@[i].memory is None
            },
{
    let mut entries: Vec<OutputEntry> = Vec::new();
    let mut i: usize = 0;
    while i < nodes.len()
        invariant
            i <= nodes.len(),
            entries.len() == i,
            forall|j: int| 0 <= j < i ==> (#[trigger] entries@[j]).lists(nodes@[j]@),
        decreases nodes.len() - i,
    {
        let entry = OutputEntry {
            node: nodes[i].clone(),
            status: "Running".to_owned(),
            pid: None,
            cpu: None,
            memory: None,
        };
        entries.push(entry);
        i += 1;
    }
    entries
}

fn pid_text(pid: Option<u32>) -> (text: String)
    ensures
        text@ == pid_cell(pid),
{
    match pid {
        Some(pid) => decimal(pid as u64),
        None => "-".to_owned(),
    }
}

fn text_or_dash<'a>(text: &'a Option<String>) -> (cell: &'a str)
    ensures
        cell@ == text_cell(*text),
{
    match text {
        Some(text) => text.as_str(),
        None => "-",
    }
}

/// Writes the table with tabs between its columns.
pub fn table_text(entries: &Vec<OutputEntry>) -> (text: String)
    ensures
        text@ == table_source(entries@),
        text@ == "NODE\tSTATUS\tPID\tCPU\tMEMORY\n"@ + entries@.map_values(
            |entry: OutputEntry| entry.line(),
        ).flatten_alt(),
{
    let mut text: String = "NODE\tSTATUS\tPID\tCPU\tMEMORY\n".to_owned();
    let mut i: usize = 0;
    assert(entries@.take(0) =~= Seq::empty());
    while i < entries.len()
        invariant
            i <= entries.len(),
            text@ == table_source(entries@.take(i as int)),
        decreases entries.len() - i,
    {
        let entry: &OutputEntry = &entries[i];
        let ghost before = text@;
        text.append(entry.node.as_str());
        text.append("\t");
        text.append(entry.status.as_str());
        text.append("\t");
        text.append(pid_text(entry.pid).as_str());
        text.append("\t");
        text.append(text_or_dash(&entry.cpu));
        text.append("\t");
        text.append(text_or_dash(&entry.memory));
        text.append("\n");
        proof {
            assert(text@ =~= before + entry.line());
            assert(entries@.take(i + 1).drop_last() =~= entries@.take(i as int));
        }
        i += 1;
    }
    assert(entries@.take(i as int) =~= entries@);
    proof {
        law_table_is_the_header_and_all_lines(entries@);
    }
    text
}

/// Writes the table with its columns aligned.
pub fn render_table(entries: &Vec<OutputEntry>) -> (table: Vec<u8>)
    ensures
        table@ == tab_aligned(vstd::utf8::encode_utf8(table_source(entries@))),
{
    let text = table_text(entries);
    align_tabs(text.as_str().as_bytes())
}

/// Lists the nodes of a dataflow, given their ids in the order of its
/// descriptor, in the chosen format.
pub fn list(nodes: Vec<String>, format: OutputFormat) -> (listing: Listing)
    ensures
        match format {
            OutputFormat::Table => listing matches Listing::Table(table) && table@ == tab_aligned(
                vstd::utf8::encode_utf8(nodes_source(nodes@)),
            ) && table@ == tab_aligned(
                vstd::utf8::encode_utf8(
                    "NODE\tSTATUS\tPID\tCPU\tMEMORY\n"@ + nodes@.map_values(
                        |id: String| id@ + "\tRunning\t-\t-\t-\n"@,
                    ).flatten_alt(),
                ),
            ),
            OutputFormat::Json => listing matches Listing::Json(entries) && lists_all(
                entries@,
                nodes@,
            ),
        },
{
    let ghost ids = nodes@;
    let entries = node_entries(nodes);
    proof {
        law_listed_nodes_make_the_table(entries@, ids);
        law_node_table_has_a_line_for_each_node(ids);
    }
    match format {
        OutputFormat::Table => Listing::Table(render_table(&entries)),
        OutputFormat::Json => Listing::Json(entries),
    }
}

/// An entry's line holds its node, its status, its process id in decimal, its
/// processor and its memory usage, in this order, with tabs between them and a
/// dash for each that is not known, and ends the line.
pub proof fn law_line_shows_all_columns(entry: OutputEntry)
    ensures
        entry.line() == entry.node@ + "\t"@ + entry.status@ + "\t"@ + (match entry.pid {
            Some(pid) => crate::text::decimal_text(pid as nat),
            None => "-"@,
        }) + "\t"@ + (match entry.cpu {
            Some(cpu) => cpu@,
            None => "-"@,
        }) + "\t"@ + (match entry.memory {
            Some(memory) => memory@,
            None => "-"@,
        }) + "\n"@,
{
}

/// The table is the header followed by the line of every entry, for any number of
/// entries, in order; one more entry adds its line at the end.
pub proof fn law_table_is_the_header_and_all_lines(entries: Seq<OutputEntry>)
    ensures
        table_source(entries) == "NODE\tSTATUS\tPID\tCPU\tMEMORY\n"@ + entries.map_values(
            |entry: OutputEntry| entry.line(),
        ).flatten_alt(),
        forall|entry: OutputEntry|
            #[trigger] table_source(entries.push(entry)) == table_source(entries) + entry.line(),
    decreases entries.len(),
{
    let lines = entries.map_values(|entry: OutputEntry| entry.line());
    let header = "NODE\tSTATUS\tPID\tCPU\tMEMORY\n"@;
    if entries.len() > 0 {
        let shorter = entries.drop_last();
        law_table_is_the_header_and_all_lines(shorter);
        assert(lines.drop_last() =~= shorter.map_values(|entry: OutputEntry| entry.line()));
        assert(table_source(entries) =~= header + lines.flatten_alt());
    } else {
        assert(table_source(entries) =~= header + lines.flatten_alt());
    }
    assert forall|entry: OutputEntry| #[trigger]
        table_source(entries.push(entry)) == table_source(entries) + entry.line() by {
        assert(entries.push(entry).drop_last() =~= entries);
    }
}

/// The table of running nodes is the header followed by a line for every node, for
/// any number of nodes, in order; one more node adds its line at the end.
pub proof fn law_node_table_has_a_line_for_each_node(nodes: Seq<String>)
    ensures
        nodes_source(nodes) == "NODE\tSTATUS\tPID\tCPU\tMEMORY\n"@ + nodes.map_values(
            |id: String| id@ + "\tRunning\t-\t-\t-\n"@,
        ).flatten_alt(),
        forall|node: String|
            #[trigger] nodes_source(nodes.push(node)) == nodes_source(nodes) + node@
                + "\tRunning\t-\t-\t-\n"@,
    decreases nodes.len(),
{
    let lines = nodes.map_values(|id: String| id@ + "\tRunning\t-\t-\t-\n"@);
    let header = "NODE\tSTATUS\tPID\tCPU\tMEMORY\n"@;
    if nodes.len() > 0 {
        let shorter = nodes.drop_last();
        law_node_table_has_a_line_for_each_node(shorter);
        assert(lines.drop_last() =~= shorter.map_values(
            |id: String| id@ + "\tRunning\t-\t-\t-\n"@,
        ));
    }
    assert(nodes_source(nodes) =~= header + lines.flatten_alt());
    assert forall|node: String| #[trigger]
        nodes_source(nodes.push(node)) == nodes_source(nodes) + node@
        + "\tRunning\t-\t-\t-\n"@ by {
        assert(nodes.push(node).drop_last() =~= nodes);
    }
}

/// The entries that list nodes are as many as the nodes; each names its node in
/// full, says that it runs, and gives nothing else.
pub proof fn law_entries_list_their_nodes(entries: Seq<OutputEntry>, nodes: Seq<String>)
    ensures
        lists_all(entries, nodes) <==> {
            &&& entries.len() == nodes.len()
            &&& forall|i: int|
                #![trigger entries[i]]
                0 <= i < nodes.len() ==> {
                    &&& entries[i].node@ == nodes[i]@
                    &&& entries[i].status@ == "Running"@
                    &&& entries[i].pid is None
                    &&& entries[i].cpu is None
                    &&& entries[i].memory is None
                }
        },
{
}

} // verus!
