use codegraph_server::graph::CodeGraph;
use codegraph_server::graph::Node;
use codegraph_server::graph::NodeId;
use codegraph_server::graph::NodeType;
use codegraph_server::index::SymbolIndex;
use codegraph_server::parser_api::FileInfo;
use codegraph_server::props::PropertyMap;
use codegraph_server::props::PropertyValue;

fn symbol_node(
    kind: NodeType,
    name: &str,
    path: &str,
    start_line: i64,
    start_col: i64,
    end_line: i64,
    end_col: i64,
) -> Node {
    let mut properties = PropertyMap::new();
    properties.insert("name".to_string(), PropertyValue::Str(name.to_string()));
    properties.insert("path".to_string(), PropertyValue::Str(path.to_string()));
    properties.insert("start_line".to_string(), PropertyValue::Int(start_line));
    properties.insert("start_col".to_string(), PropertyValue::Int(start_col));
    properties.insert("end_line".to_string(), PropertyValue::Int(end_line));
    properties.insert("end_col".to_string(), PropertyValue::Int(end_col));
    Node { node_type: kind, properties }
}

fn file_info_of(ids: &[NodeId]) -> FileInfo {
    let mut info = FileInfo::new();
    for id in ids {
        info.functions.push(*id);
    }
    info
}

#[test]
fn test_add_file_indexes_symbols() {
    let mut graph = CodeGraph::in_memory();
    let a = graph.add_node(symbol_node(NodeType::Function, "alpha", "/w/a.py", 1, 0, 2, 0));
    let b = graph.add_node(symbol_node(NodeType::Class, "Beta", "/w/a.py", 4, 0, 9, 0));
    let mut index = SymbolIndex::new();
    index.add_file("/w/a.py", &file_info_of(&[a, b]), &graph);

    assert_eq!(index.get_file_symbols("/w/a.py"), vec![a, b]);
    assert_eq!(index.get_by_type("Function"), vec![a]);
    assert_eq!(index.get_by_type("Class"), vec![b]);
    assert_eq!(index.search_by_name("alp"), vec![a]);
    assert_eq!(index.search_by_name("BETA"), vec![b]);
    assert_eq!(index.search_by_name("nothing"), Vec::<NodeId>::new());
}

#[test]
fn test_add_file_skips_foreign_and_missing_ids() {
    let mut graph = CodeGraph::in_memory();
    let a = graph.add_node(symbol_node(NodeType::Function, "a", "/w/a.py", 1, 0, 2, 0));
    let other = graph.add_node(symbol_node(NodeType::Function, "b", "/w/b.py", 1, 0, 2, 0));
    let mut index = SymbolIndex::new();
    index.add_file("/w/a.py", &file_info_of(&[a, a, other, 999]), &graph);

    // `a` once despite the duplicate; the foreign and missing ids ignored.
    assert_eq!(index.get_file_symbols("/w/a.py"), vec![a]);
}

#[test]
fn test_remove_file_purges_everything() {
    let mut graph = CodeGraph::in_memory();
    let a = graph.add_node(symbol_node(NodeType::Function, "shared", "/w/a.py", 1, 0, 2, 0));
    let b = graph.add_node(symbol_node(NodeType::Function, "shared", "/w/b.py", 1, 0, 2, 0));
    let mut index = SymbolIndex::new();
    index.add_file("/w/a.py", &file_info_of(&[a]), &graph);
    index.add_file("/w/b.py", &file_info_of(&[b]), &graph);

    index.remove_file("/w/a.py");

    assert_eq!(index.get_file_symbols("/w/a.py"), Vec::<NodeId>::new());
    assert_eq!(index.find_at_position("/w/a.py", 1, 0), None);
    // The shared name bucket keeps only the other file's id.
    assert_eq!(index.search_by_name("shared"), vec![b]);
    let stats = index.stats();
    assert_eq!(stats.total_files, 1);
    assert_eq!(stats.unique_names, 1);
    assert_eq!(stats.total_symbols, 1);
}

#[test]
fn test_reindex_same_parse_is_idempotent() {
    let mut graph = CodeGraph::in_memory();
    let a = graph.add_node(symbol_node(NodeType::Function, "a", "/w/a.py", 1, 0, 2, 0));
    let mut index = SymbolIndex::new();
    index.add_file("/w/a.py", &file_info_of(&[a]), &graph);
    let once_files = index.get_file_symbols("/w/a.py");
    let once_names = index.search_by_name("a");

    index.add_file("/w/a.py", &file_info_of(&[a]), &graph);

    assert_eq!(index.get_file_symbols("/w/a.py"), once_files);
    assert_eq!(index.search_by_name("a"), once_names);
    assert_eq!(index.stats().total_symbols, 1);
}

#[test]
fn test_find_at_position_picks_innermost() {
    // A class spanning lines 1..20 holding a method spanning 10..12.
    let mut graph = CodeGraph::in_memory();
    let class_id = graph.add_node(symbol_node(NodeType::Class, "C", "/w/c.py", 1, 0, 20, 0));
    let method_id = graph.add_node(symbol_node(NodeType::Function, "m", "/w/c.py", 10, 4, 12, 0));
    let mut index = SymbolIndex::new();
    index.add_file("/w/c.py", &file_info_of(&[class_id, method_id]), &graph);

    assert_eq!(index.find_at_position("/w/c.py", 10, 4), Some(method_id));
    assert_eq!(index.find_at_position("/w/c.py", 2, 0), Some(class_id));
}

#[test]
fn test_find_at_position_outside_all_ranges() {
    let mut graph = CodeGraph::in_memory();
    let a = graph.add_node(symbol_node(NodeType::Function, "a", "/w/a.py", 5, 0, 7, 0));
    let mut index = SymbolIndex::new();
    index.add_file("/w/a.py", &file_info_of(&[a]), &graph);

    assert_eq!(index.find_at_position("/w/a.py", 1, 0), None);
    assert_eq!(index.find_at_position("/w/a.py", 99, 0), None);
    assert_eq!(index.find_at_position("/w/other.py", 5, 0), None);
}

#[test]
fn test_find_at_position_on_exact_start() {
    let mut graph = CodeGraph::in_memory();
    let outer = graph.add_node(symbol_node(NodeType::Function, "outer", "/w/a.py", 1, 0, 9, 0));
    let inner = graph.add_node(symbol_node(NodeType::Function, "inner", "/w/a.py", 3, 2, 4, 0));
    let mut index = SymbolIndex::new();
    index.add_file("/w/a.py", &file_info_of(&[outer, inner]), &graph);

    // The exact start of the inner range belongs to the inner symbol.
    assert_eq!(index.find_at_position("/w/a.py", 3, 2), Some(inner));
}

#[test]
fn test_get_node_range() {
    let mut graph = CodeGraph::in_memory();
    let a = graph.add_node(symbol_node(NodeType::Function, "a", "/w/a.py", 2, 1, 3, 4));
    let mut index = SymbolIndex::new();
    index.add_file("/w/a.py", &file_info_of(&[a]), &graph);

    let range = index.get_node_range("/w/a.py", a).expect("range");
    assert_eq!(range.start_line, 2);
    assert_eq!(range.start_col, 1);
    assert_eq!(range.end_line, 3);
    assert_eq!(range.end_col, 4);
    assert_eq!(index.get_node_range("/w/a.py", 999), None);
}

#[test]
fn test_positions_sorted_by_start() {
    let mut graph = CodeGraph::in_memory();
    let late = graph.add_node(symbol_node(NodeType::Function, "late", "/w/a.py", 9, 0, 10, 0));
    let early = graph.add_node(symbol_node(NodeType::Function, "early", "/w/a.py", 1, 0, 2, 0));
    let mut index = SymbolIndex::new();
    index.add_file("/w/a.py", &file_info_of(&[late, early]), &graph);

    // Lookup in the gap hits nothing even though insertion order was reversed.
    assert_eq!(index.find_at_position("/w/a.py", 5, 0), None);
    assert_eq!(index.find_at_position("/w/a.py", 1, 0), Some(early));
    assert_eq!(index.find_at_position("/w/a.py", 9, 0), Some(late));
}

#[test]
fn test_clear() {
    let mut graph = CodeGraph::in_memory();
    let a = graph.add_node(symbol_node(NodeType::Function, "a", "/w/a.py", 1, 0, 2, 0));
    let mut index = SymbolIndex::new();
    index.add_file("/w/a.py", &file_info_of(&[a]), &graph);
    index.clear();
    assert_eq!(index.get_file_symbols("/w/a.py"), Vec::<NodeId>::new());
    assert_eq!(index.stats().total_files, 0);
    assert_eq!(index.stats().unique_names, 0);
}
