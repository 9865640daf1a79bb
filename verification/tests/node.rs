use dora_inspect::node::info::{info, ControlRequest, ControlRequestReply, Info, InfoError, Shown};
use dora_inspect::node::list::{
    list, node_entries, render_table, table_text, List, Listing, OutputEntry,
};
use dora_inspect::node::{Node, NodeAction};
use dora_inspect::options::{CoordinatorOptions, DataflowSelector, OutputFormat};
use dora_inspect::text::decimal;

fn coordinator() -> CoordinatorOptions {
    CoordinatorOptions { coordinator_addr: "127.0.0.1".to_string(), coordinator_port: 6012 }
}

fn selector() -> DataflowSelector {
    DataflowSelector { dataflow: Some("my-dataflow".to_string()) }
}

fn ids(nodes: &[&str]) -> Vec<String> {
    nodes.iter().map(|node| node.to_string()).collect()
}

#[test]
fn decimal_writes_digits() {
    assert_eq!(decimal(0), "0");
    assert_eq!(decimal(9), "9");
    assert_eq!(decimal(10), "10");
    assert_eq!(decimal(907), "907");
    assert_eq!(decimal(u64::MAX), "18446744073709551615");
}

#[test]
fn decimal_writes_every_digit() {
    assert_eq!(decimal(1234567890), "1234567890");
}

#[test]
fn list_command_lists_the_selected_dataflow() {
    let node = Node::List(List {
        selector: selector(),
        format: OutputFormat::Json,
        coordinator: coordinator(),
    });
    match node.execute() {
        NodeAction::ListNodes { coordinator, selector, format } => {
            assert_eq!(coordinator.coordinator_addr, "127.0.0.1");
            assert_eq!(coordinator.coordinator_port, 6012);
            assert_eq!(selector.dataflow.as_deref(), Some("my-dataflow"));
            assert_eq!(format, OutputFormat::Json);
        }
        other => panic!("unexpected action: {other:?}"),
    }
}

#[test]
fn info_command_asks_about_the_node_of_the_selected_dataflow() {
    let node = Node::Info(Info {
        selector: selector(),
        node_id: "camera".to_string(),
        format: OutputFormat::Json,
        coordinator: coordinator(),
    });
    match node.execute() {
        NodeAction::Query { coordinator, selector, request, format } => {
            assert_eq!(coordinator.coordinator_addr, "127.0.0.1");
            assert_eq!(coordinator.coordinator_port, 6012);
            assert_eq!(selector.dataflow.as_deref(), Some("my-dataflow"));
            let ControlRequest::SystemInfo { node } = request;
            assert_eq!(node, "camera");
            assert_eq!(format, OutputFormat::Json);
        }
        other => panic!("unexpected action: {other:?}"),
    }
}

#[test]
fn request_about_a_node_of_the_dataflow_passes() {
    let request = ControlRequest::SystemInfo { node: "camera".to_string() };
    let ControlRequest::SystemInfo { node } = request.among(&ids(&["plot", "camera"])).unwrap();
    assert_eq!(node, "camera");
}

#[test]
fn request_about_another_node_is_rejected() {
    let request = ControlRequest::SystemInfo { node: "camera".to_string() };
    let err = request.among(&ids(&["plot", "camera2"])).unwrap_err();
    assert!(matches!(err, InfoError::UnknownNode(_)));
    assert_eq!(err.message(), "no node in the selected dataflow is called camera");
    let request = ControlRequest::SystemInfo { node: "camera".to_string() };
    assert!(request.among(&Vec::new()).is_err());
}

fn usage() -> ControlRequestReply {
    ControlRequestReply::NodeSystemInfo {
        node: "camera".to_string(),
        cpu: "12.50".to_string(),
        memory: 1048576,
    }
}

#[test]
fn info_shows_the_usage_as_text() {
    match info(usage(), OutputFormat::Table).unwrap() {
        Shown::Text(text) => assert_eq!(
            text,
            "Node: camera\nCPU Usage: 12.50%\nMemory Usage: 1048576 bytes\n"
        ),
        other => panic!("unexpected form: {other:?}"),
    }
}

#[test]
fn info_shows_the_usage_as_json() {
    match info(usage(), OutputFormat::Json).unwrap() {
        Shown::Json(shown) => {
            assert_eq!(shown.node, "camera");
            assert_eq!(shown.cpu, "12.50");
            assert_eq!(shown.memory, 1048576);
        }
        other => panic!("unexpected form: {other:?}"),
    }
}

#[test]
fn info_passes_on_an_error() {
    for format in [OutputFormat::Table, OutputFormat::Json] {
        let err = info(ControlRequestReply::Error("no such node".to_string()), format).unwrap_err();
        assert!(matches!(err, InfoError::Coordinator(_)));
        assert_eq!(err.message(), "no such node");
    }
}

#[test]
fn info_rejects_another_reply() {
    for format in [OutputFormat::Table, OutputFormat::Json] {
        let reply = ControlRequestReply::Other("DataflowList".to_string());
        let err = info(reply, format).unwrap_err();
        assert!(matches!(err, InfoError::UnexpectedReply(_)));
        assert_eq!(err.message(), "unexpected list dataflow reply: DataflowList");
    }
}

#[test]
fn entries_follow_the_nodes() {
    let entries = node_entries(ids(&["b", "a"]));
    assert_eq!(entries.len(), 2);
    assert_eq!(entries[0].node, "b");
    assert_eq!(entries[1].node, "a");
    for entry in &entries {
        assert_eq!(entry.status, "Running");
        assert!(entry.pid.is_none());
        assert!(entry.cpu.is_none());
        assert!(entry.memory.is_none());
    }
}

#[test]
fn table_text_has_a_line_for_each_entry() {
    assert_eq!(
        table_text(&node_entries(ids(&["b", "a"]))),
        "NODE\tSTATUS\tPID\tCPU\tMEMORY\nb\tRunning\t-\t-\t-\na\tRunning\t-\t-\t-\n"
    );
}

#[test]
fn table_text_shows_what_is_known() {
    let entries = vec![OutputEntry {
        node: "n".to_string(),
        status: "Running".to_string(),
        pid: Some(4711),
        cpu: Some("3%".to_string()),
        memory: Some("2 MB".to_string()),
    }];
    assert_eq!(
        table_text(&entries),
        "NODE\tSTATUS\tPID\tCPU\tMEMORY\nn\tRunning\t4711\t3%\t2 MB\n"
    );
}

#[test]
fn rendered_table_has_aligned_columns() {
    let table = render_table(&node_entries(ids(&["camera", "x"])));
    assert_eq!(
        String::from_utf8(table).unwrap(),
        "NODE    STATUS   PID  CPU  MEMORY\n\
         camera  Running  -    -    -\n\
         x       Running  -    -    -\n"
    );
}

#[test]
fn listing_as_a_table() {
    match list(ids(&["camera"]), OutputFormat::Table) {
        Listing::Table(table) => assert_eq!(
            String::from_utf8(table).unwrap(),
            "NODE    STATUS   PID  CPU  MEMORY\ncamera  Running  -    -    -\n"
        ),
        other => panic!("unexpected listing: {other:?}"),
    }
}

#[test]
fn listing_of_no_nodes_is_the_header() {
    match list(Vec::new(), OutputFormat::Table) {
        Listing::Table(table) => assert_eq!(
            String::from_utf8(table).unwrap(),
            "NODE  STATUS  PID  CPU  MEMORY\n"
        ),
        other => panic!("unexpected listing: {other:?}"),
    }
}

#[test]
fn listing_as_json_entries() {
    match list(ids(&["a", "b"]), OutputFormat::Json) {
        Listing::Json(entries) => {
            assert_eq!(entries.len(), 2);
            assert_eq!(entries[0].node, "a");
            assert_eq!(entries[1].node, "b");
        }
        other => panic!("unexpected listing: {other:?}"),
    }
}
