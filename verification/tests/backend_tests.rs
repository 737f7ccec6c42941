use codegraph_server::backend::CodeGraphBackend;
use codegraph_server::backend::CommandKind;
use codegraph_server::backend::parse_command;
use codegraph_server::backend::supported_commands;
use codegraph_server::graph::Direction;
use codegraph_server::graph::EdgeType;
use codegraph_server::graph::Node;
use codegraph_server::graph::NodeId;
use codegraph_server::graph::NodeType;
use codegraph_server::parser_api::FileInfo;
use codegraph_server::props::PropertyMap;
use codegraph_server::props::PropertyValue;
use codegraph_server::protocol::Position;

fn symbol_node(
    kind: NodeType,
    name: &str,
    path: &str,
    start_line: i64,
    start_col: i64,
    end_line: i64,
    end_col: i64,
) -> Node {
    let mut properties = PropertyMap::new();
    properties.insert("name".to_string(), PropertyValue::Str(name.to_string()));
    properties.insert("path".to_string(), PropertyValue::Str(path.to_string()));
    properties.insert("start_line".to_string(), PropertyValue::Int(start_line));
    properties.insert("start_col".to_string(), PropertyValue::Int(start_col));
    properties.insert("end_line".to_string(), PropertyValue::Int(end_line));
    properties.insert("end_col".to_string(), PropertyValue::Int(end_col));
    Node { node_type: kind, properties }
}

fn file_info_of(ids: &[NodeId]) -> FileInfo {
    let mut info = FileInfo::new();
    for id in ids {
        info.functions.push(*id);
    }
    info
}

/// The fixture a Python frontend would materialize for
/// `def foo():\n    pass\n\nfoo()` in /w/a.py: the declaration at line one,
/// the call at line four, and a call edge from the call to the declaration.
fn open_foo_fixture(backend: &mut CodeGraphBackend) -> (NodeId, NodeId) {
    let def_id = backend.graph.add_node(symbol_node(
        NodeType::Function,
        "foo",
        "/w/a.py",
        1,
        4,
        1,
        7,
    ));
    let call_id = backend.graph.add_node(symbol_node(
        NodeType::Function,
        "foo",
        "/w/a.py",
        4,
        0,
        4,
        3,
    ));
    backend.graph.add_edge(call_id, def_id, EdgeType::Calls).expect("edge");
    backend.open_file("file:///w/a.py", "/w/a.py", file_info_of(&[def_id, call_id]));
    (def_id, call_id)
}

#[test]
fn test_open_then_definition() {
    let mut backend = CodeGraphBackend::new();
    open_foo_fixture(&mut backend);

    let location = backend
        .goto_definition("/w/a.py", Position { line: 3, character: 0 })
        .expect("ok")
        .expect("some");
    assert_eq!(location.uri, "file:///w/a.py");
    assert_eq!(location.range.start.line, 0);
    assert_eq!(location.range.start.character, 4);
    assert_eq!(location.range.end.line, 0);
    assert_eq!(location.range.end.character, 7);
}

#[test]
fn test_find_references_includes_declaration() {
    let mut backend = CodeGraphBackend::new();
    open_foo_fixture(&mut backend);

    let locations = backend
        .references("/w/a.py", Position { line: 0, character: 4 }, true)
        .expect("ok")
        .expect("some");
    assert_eq!(locations.len(), 2);
    // The declaration first, then the call site at line four.
    assert_eq!(locations[0].range.start.line, 0);
    assert_eq!(locations[0].range.start.character, 4);
    assert_eq!(locations[1].range.start.line, 3);
    assert_eq!(locations[1].range.start.character, 0);
}

#[test]
fn test_purge_then_insert() {
    let mut backend = CodeGraphBackend::new();
    let a1 = backend.graph.add_node(symbol_node(NodeType::Function, "a", "/w/b.py", 1, 0, 2, 0));
    let b1 = backend.graph.add_node(symbol_node(NodeType::Function, "b", "/w/b.py", 4, 0, 5, 0));
    backend.open_file("file:///w/b.py", "/w/b.py", file_info_of(&[a1, b1]));

    // The edit leaves only `a`: purge, re-parse, re-index.
    backend.remove_file_from_graph("/w/b.py");
    let a2 = backend.graph.add_node(symbol_node(NodeType::Function, "a", "/w/b.py", 1, 0, 2, 0));
    backend.open_file("file:///w/b.py", "/w/b.py", file_info_of(&[a2]));

    let symbols = backend.document_symbol("/w/b.py").expect("some");
    assert_eq!(symbols.len(), 1);
    assert_eq!(symbols[0].name, "a");

    let named_b = backend
        .graph
        .query()
        .property("name".to_string(), PropertyValue::Str("b".to_string()))
        .execute()
        .expect("ok");
    assert_eq!(named_b, Vec::<NodeId>::new());
}

#[test]
fn test_cross_file_reference_survives_close() {
    let mut backend = CodeGraphBackend::new();
    let (_, _) = open_foo_fixture(&mut backend);

    backend.close_file("file:///w/a.py");

    // The file cache no longer holds the URI.
    assert!(!backend.file_cache.iter().any(|e| e.0 == "file:///w/a.py"));

    // References on the declaration still answer at least the declaration.
    let locations = backend
        .references("/w/a.py", Position { line: 0, character: 4 }, true)
        .expect("ok")
        .expect("some");
    assert!(locations.len() >= 1);
    assert_eq!(locations[0].range.start.line, 0);
}

#[test]
fn test_reindex_workspace_drops_everything() {
    let mut backend = CodeGraphBackend::new();
    let (def_id, _) = open_foo_fixture(&mut backend);

    backend.reindex_workspace();

    assert!(backend.graph.get_node(def_id).is_err());
    assert!(backend.document_symbol("/w/a.py").is_none());
    assert_eq!(backend.file_cache.len(), 0);
    assert_eq!(backend.symbol_index.stats().total_symbols, 0);
}

#[test]
fn test_connected_edges_both_is_outgoing_then_incoming() {
    let mut backend = CodeGraphBackend::new();
    let n = backend.graph.add_node(symbol_node(NodeType::Function, "n", "/w/n.py", 1, 0, 2, 0));
    let t = backend.graph.add_node(symbol_node(NodeType::Function, "t", "/w/n.py", 3, 0, 4, 0));
    let s = backend.graph.add_node(symbol_node(NodeType::Function, "s", "/w/n.py", 5, 0, 6, 0));
    backend.graph.add_edge(n, t, EdgeType::Calls).expect("edge");
    backend.graph.add_edge(s, n, EdgeType::References).expect("edge");

    let out = backend.get_connected_edges(n, Direction::Outgoing);
    let inc = backend.get_connected_edges(n, Direction::Incoming);
    let both = backend.get_connected_edges(n, Direction::Both);

    assert_eq!(out, vec![(n, t, EdgeType::Calls)]);
    assert_eq!(inc, vec![(s, n, EdgeType::References)]);
    let mut expected = out.clone();
    expected.extend(inc.iter().cloned());
    assert_eq!(both, expected);
}

#[test]
fn test_hover_content() {
    let mut backend = CodeGraphBackend::new();
    let mut node = symbol_node(NodeType::Function, "foo", "/w/a.py", 1, 4, 1, 7);
    node.properties.insert(
        "signature".to_string(),
        PropertyValue::Str("def foo()".to_string()),
    );
    node.properties.insert("doc".to_string(), PropertyValue::Str("Does foo.".to_string()));
    let def_id = backend.graph.add_node(node);
    let call_id = backend.graph.add_node(symbol_node(
        NodeType::Function,
        "foo",
        "/w/a.py",
        4,
        0,
        4,
        3,
    ));
    backend.graph.add_edge(call_id, def_id, EdgeType::Calls).expect("edge");
    backend.open_file("file:///w/a.py", "/w/a.py", file_info_of(&[def_id, call_id]));

    let content = backend
        .hover("/w/a.py", Position { line: 0, character: 5 })
        .expect("ok")
        .expect("some");
    assert_eq!(
        content,
        "**Function** `foo`\n\n```\ndef foo()\n```\n\nDoes foo.\n\n---\n\n**Defined in:** /w/a.py\n**References:** 1"
    );
}

#[test]
fn test_call_hierarchy_payload_round_trip() {
    let mut backend = CodeGraphBackend::new();
    let (def_id, call_id) = open_foo_fixture(&mut backend);

    let items = backend
        .prepare_call_hierarchy("/w/a.py", Position { line: 0, character: 5 })
        .expect("ok")
        .expect("some");
    assert_eq!(items.len(), 1);
    assert_eq!(items[0].name, "foo");
    assert_eq!(items[0].data, format!("{{\"nodeId\":\"{}\"}}", def_id));

    // The payload prepare embedded is accepted by the call requests.
    let incoming = backend.incoming_calls(items[0].data.as_str()).expect("ok").expect("some");
    assert_eq!(incoming.len(), 1);
    assert_eq!(incoming[0].item.name, "foo");
    assert_eq!(incoming[0].item.data, format!("{{\"nodeId\":\"{}\"}}", call_id));

    let outgoing = backend.outgoing_calls(items[0].data.as_str()).expect("ok");
    assert!(outgoing.is_none());
}

#[test]
fn test_prepare_rejects_non_functions() {
    let mut backend = CodeGraphBackend::new();
    let class_id = backend.graph.add_node(symbol_node(NodeType::Class, "C", "/w/c.py", 1, 0, 9, 0));
    backend.open_file("file:///w/c.py", "/w/c.py", file_info_of(&[class_id]));

    let items = backend
        .prepare_call_hierarchy("/w/c.py", Position { line: 0, character: 0 })
        .expect("ok");
    assert!(items.is_none());
}

#[test]
fn test_goto_definition_misses_cleanly() {
    let backend = CodeGraphBackend::new();
    let answer = backend.goto_definition("/w/a.py", Position { line: 0, character: 0 }).expect("ok");
    assert!(answer.is_none());
}

#[test]
fn test_purge_invalidates_query_caches() {
    let mut backend = CodeGraphBackend::new();
    let (def_id, _) = open_foo_fixture(&mut backend);
    backend.query_cache.set_definition("/w/a.py".to_string(), 0, 4, def_id);
    backend.query_cache.set_definition("/w/other.py".to_string(), 1, 0, def_id);
    backend.query_cache.set_references(def_id, vec![]);

    backend.remove_file_from_graph("/w/a.py");

    assert_eq!(backend.query_cache.get_definition("/w/a.py", 0, 4), None);
    assert_eq!(backend.query_cache.get_definition("/w/other.py", 1, 0), Some(def_id));
    assert!(backend.query_cache.get_references(def_id).is_none());
}

#[test]
fn test_command_parsing() {
    assert_eq!(parse_command("codegraph.reindexWorkspace"), Some(CommandKind::ReindexWorkspace));
    assert_eq!(parse_command("codegraph.getAIContext"), Some(CommandKind::GetAIContext));
    assert_eq!(parse_command("codegraph.getDependencyGraph"), Some(CommandKind::GetDependencyGraph));
    assert_eq!(parse_command("codegraph.somethingElse"), None);
    let names = supported_commands();
    assert_eq!(names.len(), 8);
    for name in names {
        assert!(parse_command(name).is_some());
    }
}
