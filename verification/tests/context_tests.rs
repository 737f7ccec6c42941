use codegraph_server::ai_context::TokenBudget;
use codegraph_server::ai_context::estimate_tokens;
use codegraph_server::backend::CodeGraphBackend;
use codegraph_server::graph::EdgeType;
use codegraph_server::graph::Node;
use codegraph_server::graph::NodeId;
use codegraph_server::graph::NodeType;
use codegraph_server::parser_api::FileInfo;
use codegraph_server::props::PropertyMap;
use codegraph_server::props::PropertyValue;
use codegraph_server::protocol::Position;

fn sourced_node(name: &str, path: &str, line: i64, source: &str) -> Node {
    let mut properties = PropertyMap::new();
    properties.insert("name".to_string(), PropertyValue::Str(name.to_string()));
    properties.insert("path".to_string(), PropertyValue::Str(path.to_string()));
    properties.insert("start_line".to_string(), PropertyValue::Int(line));
    properties.insert("start_col".to_string(), PropertyValue::Int(0));
    properties.insert("end_line".to_string(), PropertyValue::Int(line + 1));
    properties.insert("end_col".to_string(), PropertyValue::Int(0));
    properties.insert("source".to_string(), PropertyValue::Str(source.to_string()));
    properties.insert("language".to_string(), PropertyValue::Str("python".to_string()));
    Node { node_type: NodeType::Function, properties }
}

fn file_info_of(ids: &[NodeId]) -> FileInfo {
    let mut info = FileInfo::new();
    for id in ids {
        info.functions.push(*id);
    }
    info
}

#[test]
fn test_token_budget() {
    let mut budget = TokenBudget::new(10);
    assert!(budget.has_budget());
    assert_eq!(budget.remaining(), 10);
    assert!(budget.consume(4));
    assert_eq!(budget.remaining(), 6);
    assert!(!budget.consume(7));
    assert_eq!(budget.remaining(), 6);
    assert!(budget.consume(6));
    assert!(!budget.has_budget());
    assert_eq!(budget.remaining(), 0);
}

#[test]
fn test_estimate_tokens() {
    assert_eq!(estimate_tokens(""), 0);
    assert_eq!(estimate_tokens("abcd"), 1);
    assert_eq!(estimate_tokens("abcdefgh"), 2);
    assert_eq!(estimate_tokens("abc"), 0);
}

#[test]
fn test_ai_context_budget_respected() {
    let mut backend = CodeGraphBackend::new();
    let big = "x".repeat(300);
    let main_id = backend.graph.add_node(sourced_node("main", "/w/m.py", 1, big.as_str()));
    let helper_id = backend.graph.add_node(sourced_node("helper", "/w/m.py", 10, big.as_str()));
    let caller_id = backend.graph.add_node(sourced_node("caller", "/w/m.py", 20, big.as_str()));
    backend.graph.add_edge(main_id, helper_id, EdgeType::Calls).expect("edge");
    backend.graph.add_edge(caller_id, main_id, EdgeType::Calls).expect("edge");
    backend.open_file(
        "file:///w/m.py",
        "/w/m.py",
        file_info_of(&[main_id, helper_id, caller_id]),
    );

    let response = backend
        .handle_get_ai_context(
            "file:///w/m.py".to_string(),
            "/w/m.py",
            Position { line: 0, character: 0 },
            "explain",
            Some(200),
        )
        .expect("ok");

    assert!(response.metadata.total_tokens <= 200);
    let related_chars: usize = response.related_symbols.iter().map(|s| s.code.len()).sum();
    assert!(related_chars <= 200 * 4);
    assert_eq!(response.primary_context.name, "main");
    assert_eq!(response.primary_context.context_type, "function");
    assert_eq!(response.primary_context.code, big);
    assert_eq!(response.primary_context.language, "python");
}

#[test]
fn test_ai_context_relationships() {
    let mut backend = CodeGraphBackend::new();
    let main_id = backend.graph.add_node(sourced_node("main", "/w/m.py", 1, "def main(): pass"));
    let helper_id = backend.graph.add_node(sourced_node("helper", "/w/m.py", 10, "def helper(): pass"));
    let test_id = backend.graph.add_node(sourced_node("test_main", "/w/t.py", 1, "def test_main(): pass"));
    backend.graph.add_edge(main_id, helper_id, EdgeType::Calls).expect("edge");
    backend.graph.add_edge(test_id, main_id, EdgeType::Calls).expect("edge");
    backend.open_file("file:///w/m.py", "/w/m.py", file_info_of(&[main_id, helper_id]));
    backend.open_file("file:///w/t.py", "/w/t.py", file_info_of(&[test_id]));

    let explain = backend
        .handle_get_ai_context(
            "file:///w/m.py".to_string(),
            "/w/m.py",
            Position { line: 0, character: 0 },
            "explain",
            None,
        )
        .expect("ok");
    assert!(explain.related_symbols.iter().any(|s| s.relationship == "uses"));
    assert!(explain.related_symbols.iter().any(|s| s.relationship == "called_by"));

    let modify = backend
        .handle_get_ai_context(
            "file:///w/m.py".to_string(),
            "/w/m.py",
            Position { line: 0, character: 0 },
            "modify",
            None,
        )
        .expect("ok");
    let tests: Vec<_> = modify.related_symbols.iter().filter(|s| s.relationship == "tests").collect();
    assert_eq!(tests.len(), 1);
    assert_eq!(tests[0].relevance_score, 100);
    assert_eq!(tests[0].name, "test_main");

    let test_ctx = backend
        .handle_get_ai_context(
            "file:///w/m.py".to_string(),
            "/w/m.py",
            Position { line: 0, character: 0 },
            "test",
            None,
        )
        .expect("ok");
    assert!(test_ctx.related_symbols.iter().any(|s| s.relationship == "example_test"));
    assert!(test_ctx.related_symbols.iter().any(|s| s.relationship == "dependency_to_mock"));
}

#[test]
fn test_ai_context_architecture_and_imports() {
    let mut backend = CodeGraphBackend::new();
    let main_id = backend.graph.add_node(sourced_node("main", "/w/m.py", 1, "def main(): pass"));
    let util_id = backend.graph.add_node(sourced_node("util", "/w/util.py", 1, "def util(): pass"));
    backend.graph.add_edge(main_id, util_id, EdgeType::Imports).expect("edge");
    backend.open_file("file:///w/m.py", "/w/m.py", file_info_of(&[main_id]));
    backend.open_file("file:///w/util.py", "/w/util.py", file_info_of(&[util_id]));

    let response = backend
        .handle_get_ai_context(
            "file:///w/m.py".to_string(),
            "/w/m.py",
            Position { line: 0, character: 0 },
            "explain",
            None,
        )
        .expect("ok");

    assert_eq!(response.dependencies.len(), 1);
    assert_eq!(response.dependencies[0].name, "util");
    assert_eq!(response.dependencies[0].dep_type, "import");
    let arch = response.architecture.expect("architecture");
    assert_eq!(arch.module, "m");
    assert_eq!(arch.neighbors, vec!["util".to_string()]);
}

#[test]
fn test_ai_context_misses_cleanly() {
    let backend = CodeGraphBackend::new();
    let err = backend
        .handle_get_ai_context(
            "file:///w/none.py".to_string(),
            "/w/none.py",
            Position { line: 0, character: 0 },
            "explain",
            None,
        )
        .err()
        .expect("err");
    assert_eq!(err.error_code(), -32602);
}
