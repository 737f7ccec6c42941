use codegraph_server::error::LspError;
use codegraph_server::index::SymbolIndex;
use codegraph_server::parser_api::FileInfo;
use codegraph_server::text::slice_lines;
use codegraph_server::graph::CodeGraph;
use codegraph_server::graph::GraphError;
use codegraph_server::graph::Node;
use codegraph_server::graph::NodeType;
use codegraph_server::parser_registry::ParserRegistry;
use codegraph_server::props::PropertyMap;
use codegraph_server::props::PropertyValue;
use codegraph_server::watcher::FileAction;
use codegraph_server::watcher::FileEventKind;
use codegraph_server::watcher::plan_file_event;

fn bare_node(name: &str) -> Node {
    let mut properties = PropertyMap::new();
    properties.insert("name".to_string(), PropertyValue::Str(name.to_string()));
    Node { node_type: NodeType::Variable, properties }
}

#[test]
fn test_error_codes() {
    assert_eq!(LspError::SymbolNotFound.error_code(), -32602);
    assert_eq!(LspError::FileNotIndexed("/w/a.py".to_string()).error_code(), -32602);
    assert_eq!(LspError::Graph("broken".to_string()).error_code(), -32602);
    assert_eq!(LspError::InvalidUri("bad".to_string()).error_code(), -32602);
    assert_eq!(LspError::NodeNotFound("7".to_string()).error_code(), -32602);
    assert_eq!(LspError::UnsupportedLanguage("cobol".to_string()).error_code(), -32603);
    assert_eq!(LspError::Cache("broken".to_string()).error_code(), -32603);
    assert_eq!(LspError::Io("gone".to_string()).error_code(), -32603);
    assert_eq!(LspError::SymbolNotFound.describe(), "Symbol not found at position");
    assert_eq!(LspError::Io("gone".to_string()).describe(), "IO error");
}

#[test]
fn test_error_messages_carry_payload() {
    assert_eq!(
        LspError::FileNotIndexed("/w/a.py".to_string()).message(),
        "File not indexed: /w/a.py"
    );
    assert_eq!(LspError::Graph("missing edge".to_string()).message(), "Graph error: missing edge");
    assert_eq!(
        LspError::Parser(codegraph_server::parser_api::ParserError::SyntaxError(
            "bad indent".to_string()
        ))
        .message(),
        "Parser error: syntax error: bad indent"
    );
    assert_eq!(LspError::SymbolNotFound.message(), "Symbol not found at position");
}

#[test]
fn test_graph_node_lifecycle() {
    let mut graph = CodeGraph::in_memory();
    let a = graph.add_node(bare_node("a"));
    let b = graph.add_node(bare_node("b"));
    let edge = graph.add_edge(a, b, codegraph_server::graph::EdgeType::Calls).expect("edge");

    assert!(graph.get_node(a).is_ok());
    assert!(graph.get_edge(edge).is_ok());
    assert_eq!(graph.get_node(99).err(), Some(GraphError::NotFound));

    // Deleting a node also deletes its incident edges.
    graph.delete_node(b).expect("delete");
    assert!(graph.get_node(b).is_err());
    assert!(graph.get_edge(edge).is_err());
    assert_eq!(graph.get_neighbors(a, codegraph_server::graph::Direction::Outgoing).expect("ok"), vec![]);

    // Ids are not reused.
    let c = graph.add_node(bare_node("c"));
    assert!(c > b);
}

#[test]
fn test_graph_edge_endpoints_must_exist() {
    let mut graph = CodeGraph::in_memory();
    let a = graph.add_node(bare_node("a"));
    assert_eq!(graph.add_edge(a, 42, codegraph_server::graph::EdgeType::Calls).err(), Some(GraphError::NotFound));
}

#[test]
fn test_property_map_replaces_bindings() {
    let mut props = PropertyMap::new();
    props.insert("name".to_string(), PropertyValue::Str("old".to_string()));
    props.insert("count".to_string(), PropertyValue::Int(3));
    props.insert("name".to_string(), PropertyValue::Str("new".to_string()));
    assert_eq!(props.get_string("name").map(|s| s.as_str()), Some("new"));
    assert_eq!(props.get_int("count"), Some(3));
    assert_eq!(props.get_int("name"), None);
    assert_eq!(props.get_string("missing"), None);
}

#[test]
fn test_slice_lines() {
    assert_eq!(slice_lines("a\nb\nc", 1, 2), Some("a\nb".to_string()));
    assert_eq!(slice_lines("a\nb\nc", 2, 2), Some("b".to_string()));
    assert_eq!(slice_lines("a\nb\nc", 1, 3), Some("a\nb\nc".to_string()));
    // A trailing newline closes the last line rather than opening a new one.
    assert_eq!(slice_lines("a\nb\n", 1, 2), Some("a\nb".to_string()));
    assert_eq!(slice_lines("a\nb\n", 1, 3), None);
    assert_eq!(slice_lines("a\nb\nc", 0, 1), None);
    assert_eq!(slice_lines("a\nb\nc", 2, 1), None);
    assert_eq!(slice_lines("", 1, 1), None);
}

#[test]
fn test_search_by_name_folds_case() {
    let mut graph = CodeGraph::in_memory();
    let mut props = PropertyMap::new();
    props.insert("name".to_string(), PropertyValue::Str("GROSSE".to_string()));
    props.insert("path".to_string(), PropertyValue::Str("/w/a.py".to_string()));
    let id = graph.add_node(Node { node_type: NodeType::Function, properties: props });
    let mut index = SymbolIndex::new();
    let mut info = FileInfo::new();
    info.functions.push(id);
    index.add_file("/w/a.py", &info, &graph);
    assert_eq!(index.search_by_name("grosse"), vec![id]);
    assert_eq!(index.search_by_name("ROSS"), vec![id]);
}

#[test]
fn test_watcher_plan_reindexes_parseable_files() {
    let registry = ParserRegistry::new();
    let plan = plan_file_event(
        &registry,
        FileEventKind::Modified,
        vec!["/w/a.py".to_string(), "/w/notes.txt".to_string()],
    );
    assert_eq!(plan.len(), 1);
    match &plan[0] {
        FileAction::Reindex(p) => assert_eq!(p, "/w/a.py"),
        FileAction::Drop(_) => panic!("expected a re-index"),
    }
}

#[test]
fn test_watcher_plan_drops_removed_files() {
    let registry = ParserRegistry::new();
    let plan = plan_file_event(
        &registry,
        FileEventKind::Removed,
        vec!["/w/a.py".to_string(), "/w/notes.txt".to_string()],
    );
    assert_eq!(plan.len(), 2);
    match &plan[0] {
        FileAction::Drop(p) => assert_eq!(p, "/w/a.py"),
        FileAction::Reindex(_) => panic!("expected a drop"),
    }
}

#[test]
fn test_watcher_plan_ignores_other_events() {
    let registry = ParserRegistry::new();
    let plan = plan_file_event(&registry, FileEventKind::Other, vec!["/w/a.py".to_string()]);
    assert!(plan.is_empty());
}
