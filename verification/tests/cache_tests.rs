use codegraph_server::cache::AIContextCache;
use codegraph_server::cache::CallHierarchyCache;
use codegraph_server::cache::DependencyGraphCache;
use codegraph_server::cache::QueryCache;
use codegraph_server::protocol::Location;
use codegraph_server::protocol::Position;
use codegraph_server::protocol::Range;

fn loc(line: u32) -> Location {
    Location {
        uri: "file:///w/a.py".to_string(),
        range: Range {
            start: Position { line, character: 0 },
            end: Position { line, character: 1 },
        },
    }
}

#[test]
fn test_definition_cache_round_trip() {
    let mut cache = QueryCache::new(10);
    assert_eq!(cache.get_definition("/w/a.py", 1, 2), None);
    cache.set_definition("/w/a.py".to_string(), 1, 2, 77);
    assert_eq!(cache.get_definition("/w/a.py", 1, 2), Some(77));
    assert_eq!(cache.get_definition("/w/a.py", 1, 3), None);
}

#[test]
fn test_references_cache_round_trip() {
    let mut cache = QueryCache::new(10);
    cache.set_references(5, vec![loc(0), loc(3)]);
    let got = cache.get_references(5).expect("cached");
    assert_eq!(got.len(), 2);
    assert_eq!(got[1].range.start.line, 3);
    assert!(cache.get_references(6).is_none());
}

#[test]
fn test_call_hierarchy_cache_round_trip() {
    let mut cache = QueryCache::new(10);
    let value = CallHierarchyCache { incoming: vec![(1, vec![])], outgoing: vec![] };
    cache.set_call_hierarchy(9, value);
    let got = cache.get_call_hierarchy(9).expect("cached");
    assert_eq!(got.incoming.len(), 1);
    assert_eq!(got.incoming[0].0, 1);
    assert!(cache.get_call_hierarchy(8).is_none());
}

#[test]
fn test_dependency_graph_cache_round_trip() {
    let mut cache = QueryCache::new(10);
    let value = DependencyGraphCache { nodes: vec![1, 2], edges: vec![] };
    cache.set_dependency_graph("/w/a.py".to_string(), 2, value);
    let got = cache.get_dependency_graph("/w/a.py", 2).expect("cached");
    assert_eq!(got.nodes, vec![1, 2]);
    assert!(cache.get_dependency_graph("/w/a.py", 3).is_none());
}

#[test]
fn test_ai_context_cache_round_trip() {
    let mut cache = QueryCache::new(10);
    let value = AIContextCache {
        primary_code: "def foo(): pass".to_string(),
        related_symbols: vec![(3, "called_by".to_string(), 80)],
    };
    cache.set_ai_context(3, "explain".to_string(), value);
    let got = cache.get_ai_context(3, "explain").expect("cached");
    assert_eq!(got.primary_code, "def foo(): pass");
    assert!(cache.get_ai_context(3, "modify").is_none());
}

#[test]
fn test_invalidate_file_is_selective_on_definitions() {
    let mut cache = QueryCache::new(10);
    cache.set_definition("/w/a.py".to_string(), 1, 0, 7);
    cache.set_definition("/w/b.py".to_string(), 1, 0, 8);
    cache.set_references(7, vec![loc(0)]);
    cache.set_call_hierarchy(7, CallHierarchyCache { incoming: vec![], outgoing: vec![] });
    cache.set_ai_context(
        7,
        "explain".to_string(),
        AIContextCache { primary_code: String::new(), related_symbols: vec![] },
    );

    cache.invalidate_file("/w/a.py");

    assert_eq!(cache.get_definition("/w/a.py", 1, 0), None);
    assert_eq!(cache.get_definition("/w/b.py", 1, 0), Some(8));
    assert!(cache.get_references(7).is_none());
    assert!(cache.get_call_hierarchy(7).is_none());
    // AI contexts survive file invalidation.
    assert!(cache.get_ai_context(7, "explain").is_some());
}

#[test]
fn test_invalidate_all() {
    let mut cache = QueryCache::new(10);
    cache.set_definition("/w/a.py".to_string(), 1, 0, 7);
    cache.set_references(7, vec![loc(0)]);
    cache.set_ai_context(
        7,
        "debug".to_string(),
        AIContextCache { primary_code: String::new(), related_symbols: vec![] },
    );
    cache.invalidate_all();
    assert_eq!(cache.get_definition("/w/a.py", 1, 0), None);
    assert!(cache.get_references(7).is_none());
    assert!(cache.get_ai_context(7, "debug").is_none());
    let stats = cache.stats();
    assert_eq!(stats.definitions_count, 0);
    assert_eq!(stats.references_count, 0);
    assert_eq!(stats.ai_contexts_count, 0);
}

#[test]
fn test_lru_capacity_bounds_entries() {
    let mut cache = QueryCache::new(2);
    for id in 0..5u64 {
        cache.set_call_hierarchy(id, CallHierarchyCache { incoming: vec![], outgoing: vec![] });
    }
    let stats = cache.stats();
    assert!(stats.call_hierarchies_count <= 2);
    // The most recent entry is still cached.
    assert!(cache.get_call_hierarchy(4).is_some());
}

#[test]
fn test_stats_counts() {
    let mut cache = QueryCache::new(10);
    cache.set_definition("/w/a.py".to_string(), 1, 0, 7);
    cache.set_definition("/w/a.py".to_string(), 2, 0, 8);
    cache.set_references(7, vec![]);
    let stats = cache.stats();
    assert_eq!(stats.definitions_count, 2);
    assert_eq!(stats.references_count, 1);
    assert_eq!(stats.call_hierarchies_count, 0);
    assert_eq!(stats.dependency_graphs_count, 0);
    assert_eq!(stats.ai_contexts_count, 0);
}
