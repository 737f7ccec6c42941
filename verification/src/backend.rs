//! The resolver: editor events and queries against the graph and indices.
//!
//! The backend owns the graph, the symbol index, and the file cache, and
//! keeps them consistent: every indexed id names a live node whose recorded
//! properties agree with the index, and a file's symbols are replaced
//! atomically (purge, then insert) when the file changes.

use vstd::prelude::*;

use crate::assoc::assoc_unique;
use crate::assoc::assoc_find;
use crate::assoc::assoc_lookup;
use crate::assoc::lemma_assoc_lookup_at;
use crate::assoc::lemma_assoc_lookup_none;
use crate::assoc::lemma_assoc_lookup_push_other;
use crate::assoc::lemma_assoc_lookup_remove_other;
use crate::assoc::lemma_assoc_unique_push;
use crate::assoc::lemma_assoc_unique_remove;
use crate::graph::CodeGraph;
use crate::graph::Node;
use crate::graph::NodeId;
use crate::graph::lemma_ids_matching_props;
use crate::graph::slot_matches_all;
use crate::graph::edge_touches;
use crate::graph::Edge;
use crate::index::SymbolIndex;
use crate::parser_api::FileInfo;
use crate::parser_registry::ParserRegistry;
use crate::props::PropertyValue;

verus! {

/// Whether node `id` is live and recorded under path `p`.
pub open spec fn path_node(g: CodeGraph, id: NodeId, p: Seq<char>) -> bool {
    g.has_node(id) && g.node_str_prop(id, "path"@) == Some(p)
}

/// Whether an edge slot touches a node recorded under path `p`.
pub open spec fn edge_touches_path(g: CodeGraph, slot: Option<Edge>, p: Seq<char>) -> bool {
    match slot {
        Some(e) => path_node(g, e.source_id, p) || path_node(g, e.target_id, p),
        None => false,
    }
}

/// The server state: graph, frontend registry, file cache, and symbol index.
pub struct CodeGraphBackend {
    /// The code graph.
    pub graph: CodeGraph,
    /// Frontend dispatch.
    pub parsers: ParserRegistry,
    /// Parse summaries of the files the editor has open, keyed by URI.
    pub file_cache: Vec<(String, FileInfo)>,
    /// The secondary indices.
    pub symbol_index: SymbolIndex,
    /// Memoized answers to expensive queries.
    pub query_cache: crate::cache::QueryCache,
}

impl CodeGraphBackend {
    /// The file cache table.
    pub open spec fn cache_table(self) -> Seq<(String, FileInfo)> {
        self.file_cache@
    }

    /// Whether the file cache holds an entry for a URI.
    pub open spec fn cached(self, uri: Seq<char>) -> bool {
        assoc_lookup(self.cache_table(), uri) is Some
    }

    /// The indices are well formed and agree with the graph, and the file
    /// cache has one entry per URI.
    pub open spec fn inv(self) -> bool {
        &&& self.symbol_index.wf()
        &&& self.symbol_index.consistent_with(self.graph)
        &&& self.graph.edges_closed()
        &&& assoc_unique(self.cache_table())
        &&& self.query_cache.wf()
    }

    /// A fresh backend: empty graph, empty cache, empty index.
    pub fn new() -> (r: CodeGraphBackend)
        ensures
            r.inv(),
            r.graph.is_empty_graph(),
            forall|uri: Seq<char>| !(#[trigger] r.cached(uri)),
            forall|p: Seq<char>| #[trigger] r.symbol_index.file_bucket(p) is None,
    {
        let r = CodeGraphBackend {
            graph: CodeGraph::in_memory(),
            parsers: ParserRegistry::new(),
            file_cache: Vec::new(),
            symbol_index: SymbolIndex::new(),
            query_cache: crate::cache::QueryCache::new(1000),
        };
        r
    }

    /// Remove every node recorded under `path` from the graph, with every
    /// edge touching one of them, and drop the file's index entries.
    pub fn remove_file_from_graph(&mut self, path: &str)
        requires
            old(self).inv(),
        ensures
            final(self).inv(),
            final(self).graph.nodes_view().len() == old(self).graph.nodes_view().len(),
            final(self).graph.edges_view().len() == old(self).graph.edges_view().len(),
            forall|id: NodeId|
                #[trigger] final(self).graph.has_node(id) <==> (old(self).graph.has_node(id)
                    && !path_node(old(self).graph, id, path@)),
            forall|id: NodeId|
                final(self).graph.has_node(id) ==> #[trigger] final(self).graph.node_at(id) == old(
                    self,
                ).graph.node_at(id),
            forall|j: int|
                0 <= j < old(self).graph.edges_view().len() ==> final(self).graph.edges_view()[j]
                    == (if edge_touches_path(
                    old(self).graph,
                    #[trigger] old(self).graph.edges_view()[j],
                    path@,
                ) {
                    None::<Edge>
                } else {
                    old(self).graph.edges_view()[j]
                }),
            final(self).symbol_index.file_bucket(path@) is None,
            final(self).symbol_index.pos_bucket(path@) is None,
            forall|q: Seq<char>|
                q != path@ ==> #[trigger] final(self).symbol_index.file_bucket(q) == old(
                    self,
                ).symbol_index.file_bucket(q),
            forall|q: Seq<char>|
                q != path@ ==> #[trigger] final(self).symbol_index.pos_bucket(q) == old(
                    self,
                ).symbol_index.pos_bucket(q),
            forall|nm: Seq<char>|
                #[trigger] final(self).symbol_index.name_bucket(nm)
                    == crate::index::spec_purge(
                    old(self).symbol_index.name_bucket(nm),
                    crate::index::bucket_or_empty(old(self).symbol_index.files_table(), path@),
                ),
            forall|t: Seq<char>|
                #[trigger] final(self).symbol_index.type_bucket(t)
                    == crate::index::spec_purge(
                    old(self).symbol_index.type_bucket(t),
                    crate::index::bucket_or_empty(old(self).symbol_index.files_table(), path@),
                ),
            final(self).cache_table() == old(self).cache_table(),
            final(self).parsers == old(self).parsers,
            forall|k: (Seq<char>, u32, u32), v: NodeId|
                #[trigger] final(self).query_cache.defs_view().contains_pair(k, v) <==> (old(
                    self,
                ).query_cache.defs_view().contains_pair(k, v) && k.0 != path@),
            final(self).query_cache.refs_view() =~= Map::<
                NodeId,
                Vec<crate::protocol::Location>,
            >::empty(),
            final(self).query_cache.ch_view() =~= Map::<
                NodeId,
                crate::cache::CallHierarchyCache,
            >::empty(),
            final(self).query_cache.dg_view() =~= Map::<
                (Seq<char>, nat),
                crate::cache::DependencyGraphCache,
            >::empty(),
            final(self).query_cache.ai_view() == old(self).query_cache.ai_view(),
    {
        self.query_cache.invalidate_file(path);
        let ghost qc1 = self.query_cache;
        let ghost g0 = self.graph;
        let q = self.graph.query().property(path_key(), PropertyValue::Str(path.to_owned()));
        let ghost filters = q.filters_view();
        proof {
            assert(filters.len() == 1);
            assert(filters[0].0@ == "path"@);
            assert(filters[0].1 matches PropertyValue::Str(pv) && pv@ == path@);
        }
        let ids = match q.execute() {
            Ok(ids) => ids,
            Err(_) => Vec::new(),
        };
        proof {
            assert(ids@ == crate::graph::ids_matching_upto(
                g0.nodes_view(),
                filters,
                g0.nodes_view().len() as int,
            ));
            g0.lemma_table_bounds();
            lemma_ids_matching_props(g0.nodes_view(), filters, g0.nodes_view().len() as int);
        }
        let n = ids.len();
        let mut k: usize = 0;
        while k < n
            invariant
                0 <= k <= n,
                n == ids@.len(),
                ids@ == crate::graph::ids_matching_upto(
                    g0.nodes_view(),
                    filters,
                    g0.nodes_view().len() as int,
                ),
                forall|k1: int, k2: int|
                    0 <= k1 < k2 < n ==> (#[trigger] ids@[k1]) < (#[trigger] ids@[k2]),
                forall|q: int| 0 <= q < n ==> (#[trigger] ids@[q]) < g0.nodes_view().len(),
                forall|q: int|
                    0 <= q < n ==> slot_matches_all(
                        g0.nodes_view()[#[trigger] ids@[q] as int],
                        filters,
                    ),
                self.graph.nodes_view().len() == g0.nodes_view().len(),
                self.graph.edges_view().len() == g0.edges_view().len(),
                forall|i: int|
                    0 <= i < g0.nodes_view().len() ==> #[trigger] self.graph.nodes_view()[i] == (
                    if ids@.take(k as int).contains(i as NodeId) {
                        None::<Node>
                    } else {
                        g0.nodes_view()[i]
                    }),
                forall|j: int|
                    0 <= j < g0.edges_view().len() ==> #[trigger] self.graph.edges_view()[j] == (
                    if edge_slot_touches_any(g0.edges_view()[j], ids@.take(k as int)) {
                        None::<Edge>
                    } else {
                        g0.edges_view()[j]
                    }),
                self.symbol_index == old(self).symbol_index,
                self.file_cache == old(self).file_cache,
                self.parsers == old(self).parsers,
                self.query_cache == qc1,
            decreases n - k,
        {
            let id = ids[k];
            proof {
                assert(!ids@.take(k as int).contains(id)) by {
                    if ids@.take(k as int).contains(id) {
                        let w = choose|w: int|
                            0 <= w < k && ids@.take(k as int)[w] == id;
                        assert(ids@[w] < ids@[k as int]);
                    }
                }
                assert(self.graph.nodes_view()[id as int] == g0.nodes_view()[id as int]);
                assert(g0.nodes_view()[id as int] is Some);
            }
            let ghost gpre = self.graph;
            let res = self.graph.delete_node(id);
            proof {
                assert(res is Ok);
                assert forall|i: int| 0 <= i < g0.nodes_view().len() implies #[trigger] self
                    .graph.nodes_view()[i] == (if ids@.take(k as int + 1).contains(i as NodeId) {
                    None::<Node>
                } else {
                    g0.nodes_view()[i]
                }) by {
                    assert(ids@.take(k as int + 1) =~= ids@.take(k as int).push(id));
                    assert(self.graph.nodes_view() == gpre.nodes_view().update(
                        id as int,
                        None::<Node>,
                    ));
                    proof_graph_bounds(g0);
                    if ids@.take(k as int + 1).contains(i as NodeId) {
                        let w = choose|w: int|
                            0 <= w < k + 1 && (#[trigger] ids@.take(k as int + 1)[w]) == i
                                as NodeId;
                        if w < k {
                            assert(ids@.take(k as int)[w] == i as NodeId);
                            assert(ids@.take(k as int).contains(i as NodeId));
                            assert(gpre.nodes_view()[i] == None::<Node>);
                        } else {
                            assert(i as NodeId == id);
                            assert(i == id as int);
                        }
                    } else {
                        assert(!ids@.take(k as int).contains(i as NodeId)) by {
                            if ids@.take(k as int).contains(i as NodeId) {
                                let w = choose|w: int|
                                    0 <= w < k && (#[trigger] ids@.take(k as int)[w]) == i
                                        as NodeId;
                                assert(ids@.take(k as int + 1)[w] == i as NodeId);
                            }
                        }
                        assert(ids@.take(k as int + 1)[k as int] == id);
                        assert(ids@.take(k as int + 1).contains(id));
                        assert(i as NodeId != id);
                        proof_graph_bounds(g0);
                        assert(i != id as int);
                    }
                }
                assert forall|j: int| 0 <= j < g0.edges_view().len() implies #[trigger] self
                    .graph.edges_view()[j] == (if edge_slot_touches_any(
                    g0.edges_view()[j],
                    ids@.take(k as int + 1),
                ) {
                    None::<Edge>
                } else {
                    g0.edges_view()[j]
                }) by {
                    assert(ids@.take(k as int + 1) =~= ids@.take(k as int).push(id));
                    let pre_slot = gpre.edges_view()[j];
                    if edge_slot_touches_any(g0.edges_view()[j], ids@.take(k as int + 1)) {
                        let m = choose|m: int|
                            0 <= m < k + 1 && #[trigger] edge_touches(
                                g0.edges_view()[j],
                                ids@.take(k as int + 1)[m],
                            );
                        if m < k {
                            assert(edge_slot_touches_any(g0.edges_view()[j], ids@.take(k as int)));
                        } else {
                            assert(edge_touches(g0.edges_view()[j], id));
                            if !edge_slot_touches_any(g0.edges_view()[j], ids@.take(k as int)) {
                                assert(pre_slot == g0.edges_view()[j]);
                                assert(edge_touches(pre_slot, id));
                            }
                        }
                    } else {
                        assert(!edge_slot_touches_any(g0.edges_view()[j], ids@.take(k as int)))
                            by {
                            if edge_slot_touches_any(g0.edges_view()[j], ids@.take(k as int)) {
                                let m = choose|m: int|
                                    0 <= m < k && #[trigger] edge_touches(
                                        g0.edges_view()[j],
                                        ids@.take(k as int)[m],
                                    );
                                assert(edge_touches(
                                    g0.edges_view()[j],
                                    ids@.take(k as int + 1)[m],
                                ));
                            }
                        }
                        assert(pre_slot == g0.edges_view()[j]);
                        assert(!edge_touches(g0.edges_view()[j], id)) by {
                            assert(!edge_touches(
                                g0.edges_view()[j],
                                ids@.take(k as int + 1)[k as int],
                            ));
                        }
                    }
                }
            }
            k += 1;
        }
        proof {
            assert(ids@.take(n as int) =~= ids@);
            assert forall|id: NodeId|
                id < g0.nodes_view().len() implies (slot_matches_all(
                g0.nodes_view()[id as int],
                filters,
            ) <==> path_node(g0, id, path@)) by {
                match g0.nodes_view()[id as int] {
                    Some(node) => {
                        if path_node(g0, id, path@) {
                            assert(crate::graph::slot_matches(
                                g0.nodes_view()[id as int],
                                filters[0].0@,
                                filters[0].1,
                            ));
                            assert(forall|fi: int|
                                0 <= fi < filters.len() ==> crate::graph::slot_matches(
                                    g0.nodes_view()[id as int],
                                    (#[trigger] filters[fi]).0@,
                                    filters[fi].1,
                                ));
                        }
                        if slot_matches_all(g0.nodes_view()[id as int], filters) {
                            assert(crate::graph::slot_matches(
                                g0.nodes_view()[id as int],
                                filters[0].0@,
                                filters[0].1,
                            ));
                        }
                    },
                    None => {},
                }
            }
        }
        self.symbol_index.remove_file(path);
        proof {
            let fin = *self;
            let orig = *old(self);
            assert forall|id: NodeId| #[trigger] fin.graph.has_node(id) <==> (orig.graph.has_node(
                id,
            ) && !path_node(orig.graph, id, path@)) by {
                if id < g0.nodes_view().len() {
                    if path_node(orig.graph, id, path@) {
                        assert(slot_matches_all(g0.nodes_view()[id as int], filters));
                        assert(ids@.contains(id));
                    }
                    if ids@.contains(id) {
                        let w = choose|w: int| 0 <= w < ids@.len() && ids@[w] == id;
                        assert(slot_matches_all(g0.nodes_view()[id as int], filters));
                    }
                }
            }
            assert forall|j: int| 0 <= j < orig.graph.edges_view().len() implies fin
                .graph.edges_view()[j] == (if edge_touches_path(
                orig.graph,
                #[trigger] orig.graph.edges_view()[j],
                path@,
            ) {
                None::<Edge>
            } else {
                orig.graph.edges_view()[j]
            }) by {
                let slot = orig.graph.edges_view()[j];
                if edge_touches_path(orig.graph, slot, path@) {
                    let e = slot.unwrap();
                    if path_node(orig.graph, e.source_id, path@) {
                        assert(ids@.contains(e.source_id));
                        let w = choose|w: int| 0 <= w < ids@.len() && ids@[w] == e.source_id;
                        assert(edge_touches(slot, ids@[w]));
                    } else {
                        assert(ids@.contains(e.target_id));
                        let w = choose|w: int| 0 <= w < ids@.len() && ids@[w] == e.target_id;
                        assert(edge_touches(slot, ids@[w]));
                    }
                    assert(edge_slot_touches_any(slot, ids@));
                } else {
                    assert(!edge_slot_touches_any(slot, ids@)) by {
                        if edge_slot_touches_any(slot, ids@) {
                            let m = choose|m: int|
                                0 <= m < ids@.len() && #[trigger] edge_touches(slot, ids@[m]);
                            let tid = ids@[m];
                            assert(slot_matches_all(g0.nodes_view()[tid as int], filters));
                            assert(path_node(orig.graph, tid, path@));
                        }
                    }
                }
            }
            assert(fin.inv()) by {
                assert(fin.symbol_index.consistent_with(fin.graph)) by {
                    lemma_consistency_survives_purge(
                        orig.symbol_index,
                        fin.symbol_index,
                        orig.graph,
                        fin.graph,
                        path@,
                    );
                }
                assert(fin.graph.edges_closed()) by {
                    assert forall|j: int|
                        0 <= j < fin.graph.edges_view().len() implies ((
                        #[trigger] fin.graph.edges_view()[j]) matches Some(e)
                        ==> fin.graph.has_node(e.source_id) && fin.graph.has_node(
                        e.target_id,
                    )) by {
                        if fin.graph.edges_view()[j] is Some {
                            let e = fin.graph.edges_view()[j].unwrap();
                            assert(!edge_touches_path(orig.graph, orig.graph.edges_view()[j], path@));
                            assert(fin.graph.edges_view()[j] == orig.graph.edges_view()[j]);
                            assert(orig.graph.has_node(e.source_id) && orig.graph.has_node(
                                e.target_id,
                            ));
                            assert(!path_node(orig.graph, e.source_id, path@));
                            assert(!path_node(orig.graph, e.target_id, path@));
                        }
                    }
                }
            }
        }
    }
}

/// The position of an editor request, 0-indexed lines.
pub use crate::protocol::Position;

/// A clamped u32 reading of a property value.
pub open spec fn clamp_u32(v: i64) -> u32 {
    if v < 0 {
        0
    } else if v > u32::MAX {
        u32::MAX
    } else {
        v as u32
    }
}

/// The URI of a file path.
pub open spec fn spec_loc_uri(p: Seq<char>) -> Seq<char> {
    "file://"@ + p
}

/// The editor range recorded on a node, with the defaults the resolver
/// uses: line one and column zero when a field is missing, the start line
/// standing in for a missing end line.
pub open spec fn spec_node_range(props: crate::props::PropertyMap) -> crate::protocol::Range {
    let sl = clamp_u32(
        match props.spec_get_int("start_line"@) {
            Some(v) => v,
            None => 1,
        },
    );
    let sc = clamp_u32(
        match props.spec_get_int("start_col"@) {
            Some(v) => v,
            None => 0,
        },
    );
    let el = clamp_u32(
        match props.spec_get_int("end_line"@) {
            Some(v) => v,
            None => (sl as i64),
        },
    );
    let ec = clamp_u32(
        match props.spec_get_int("end_col"@) {
            Some(v) => v,
            None => 0,
        },
    );
    crate::protocol::Range {
        start: Position {
            line: if sl >= 1 {
                (sl - 1) as u32
            } else {
                0
            },
            character: sc,
        },
        end: Position {
            line: if el >= 1 {
                (el - 1) as u32
            } else {
                0
            },
            character: ec,
        },
    }
}

/// The location a node resolves to, when it is live and carries a path.
pub open spec fn spec_loc_opt(g: CodeGraph, id: NodeId) -> Option<
    (Seq<char>, crate::protocol::Range),
> {
    if g.has_node(id) {
        match g.node_str_prop(id, "path"@) {
            Some(p) => Some((spec_loc_uri(p), spec_node_range(g.node_at(id).properties))),
            None => None,
        }
    } else {
        None
    }
}

/// The observable part of a location: URI text and range.
pub open spec fn loc_view(loc: crate::protocol::Location) -> (Seq<char>, crate::protocol::Range) {
    (loc.uri@, loc.range)
}

/// Whether a node's recorded coordinates contain the position, with the
/// fallback defaults: zero for missing starts and ends, an unbounded end
/// column.
pub open spec fn fallback_contains(g: CodeGraph, id: NodeId, line: int, col: int) -> bool {
    let props = g.node_at(id).properties;
    let sl = match props.spec_get_int("start_line"@) {
        Some(v) => v as int,
        None => 0,
    };
    let el = match props.spec_get_int("end_line"@) {
        Some(v) => v as int,
        None => 0,
    };
    let sc = match props.spec_get_int("start_col"@) {
        Some(v) => v as int,
        None => 0,
    };
    let ec = match props.spec_get_int("end_col"@) {
        Some(v) => v as int,
        None => i64::MAX as int,
    };
    &&& sl <= line <= el
    &&& (line == sl ==> col >= sc)
    &&& (line == el ==> col <= ec)
}

/// The live nodes below `n` recorded under `p`, ascending.
pub open spec fn path_ids_upto(g: CodeGraph, p: Seq<char>, n: int) -> Seq<NodeId>
    decreases n,
{
    if n <= 0 {
        Seq::empty()
    } else {
        let pre = path_ids_upto(g, p, n - 1);
        if path_node(g, (n - 1) as NodeId, p) {
            pre.push((n - 1) as NodeId)
        } else {
            pre
        }
    }
}

/// The first of the listed ids whose recorded coordinates contain the
/// position.
pub open spec fn spec_fallback_node(g: CodeGraph, ids: Seq<NodeId>, line: int, col: int) -> Option<
    NodeId,
>
    decreases ids.len(),
{
    if ids.len() == 0 {
        None
    } else if fallback_contains(g, ids[0], line, col) {
        Some(ids[0])
    } else {
        spec_fallback_node(g, ids.drop_first(), line, col)
    }
}

/// The tuple an edge id denotes.
pub open spec fn tuple_of(g: CodeGraph, eid: crate::graph::EdgeId) -> (
    NodeId,
    NodeId,
    crate::graph::EdgeType,
)
    recommends
        g.has_edge(eid),
{
    (g.edge_at(eid).source_id, g.edge_at(eid).target_id, g.edge_at(eid).edge_type)
}

/// The tuples of the first `n` listed edge ids.
pub open spec fn tuples_of_upto(g: CodeGraph, eids: Seq<crate::graph::EdgeId>, n: int) -> Seq<
    (NodeId, NodeId, crate::graph::EdgeType),
>
    decreases n,
{
    if n <= 0 {
        Seq::empty()
    } else {
        tuples_of_upto(g, eids, n - 1).push(tuple_of(g, eids[n - 1]))
    }
}

/// The edge tuples from `id` to the first `n` listed targets, in order.
pub open spec fn out_tuples_upto(g: CodeGraph, id: NodeId, targets: Seq<NodeId>, n: int) -> Seq<
    (NodeId, NodeId, crate::graph::EdgeType),
>
    decreases n,
{
    if n <= 0 {
        Seq::empty()
    } else {
        let eids = g.spec_edges_between(id, targets[n - 1]);
        out_tuples_upto(g, id, targets, n - 1) + tuples_of_upto(g, eids, eids.len() as int)
    }
}

/// The edge tuples from the first `n` listed sources to `id`, in order.
pub open spec fn in_tuples_upto(g: CodeGraph, id: NodeId, sources: Seq<NodeId>, n: int) -> Seq<
    (NodeId, NodeId, crate::graph::EdgeType),
>
    decreases n,
{
    if n <= 0 {
        Seq::empty()
    } else {
        let eids = g.spec_edges_between(sources[n - 1], id);
        in_tuples_upto(g, id, sources, n - 1) + tuples_of_upto(g, eids, eids.len() as int)
    }
}

/// Every outgoing edge tuple of a node, in neighbor order.
pub open spec fn spec_out_tuples(g: CodeGraph, id: NodeId) -> Seq<
    (NodeId, NodeId, crate::graph::EdgeType),
> {
    out_tuples_upto(g, id, g.spec_out_neighbors(id), g.spec_out_neighbors(id).len() as int)
}

/// Every incoming edge tuple of a node, in neighbor order.
pub open spec fn spec_in_tuples(g: CodeGraph, id: NodeId) -> Seq<
    (NodeId, NodeId, crate::graph::EdgeType),
> {
    in_tuples_upto(g, id, g.spec_in_neighbors(id), g.spec_in_neighbors(id).len() as int)
}

/// The target of the first definition-like edge tuple: a call, reference,
/// or import.
pub open spec fn first_def_target(tuples: Seq<(NodeId, NodeId, crate::graph::EdgeType)>) -> Option<
    NodeId,
>
    decreases tuples.len(),
{
    if tuples.len() == 0 {
        None
    } else if tuples[0].2 == crate::graph::EdgeType::Calls || tuples[0].2
        == crate::graph::EdgeType::References || tuples[0].2 == crate::graph::EdgeType::Imports {
        Some(tuples[0].1)
    } else {
        first_def_target(tuples.drop_first())
    }
}

/// Every live edge id a graph query between two nodes returns names a live
/// edge.
pub proof fn lemma_edges_between_live(g: CodeGraph, src: NodeId, dst: NodeId, n: int)
    requires
        0 <= n <= g.edges_view().len(),
        n <= u64::MAX,
    ensures
        forall|k: int|
            0 <= k < crate::graph::edges_between_upto(g.edges_view(), src, dst, n).len()
                ==> g.has_edge(
                #[trigger] crate::graph::edges_between_upto(g.edges_view(), src, dst, n)[k],
            ),
    decreases n,
{
    if n > 0 {
        lemma_edges_between_live(g, src, dst, n - 1);
        let pre = crate::graph::edges_between_upto(g.edges_view(), src, dst, n - 1);
        let cur = crate::graph::edges_between_upto(g.edges_view(), src, dst, n);
        assert(forall|k: int| 0 <= k < pre.len() ==> cur[k] == pre[k]);
        assert forall|k: int| 0 <= k < cur.len() implies g.has_edge(#[trigger] cur[k]) by {
            if k < pre.len() {
                assert(g.has_edge(pre[k]));
            } else {
                assert(cur[k] == (n - 1) as crate::graph::EdgeId);
                assert(g.edges_view()[n - 1] is Some);
            }
        }
    }
}

/// Every tuple of a list of live edge ids joins two live nodes, in a
/// closed graph.
proof fn lemma_tuples_of_endpoints_live(g: CodeGraph, eids: Seq<crate::graph::EdgeId>, n: int)
    requires
        g.edges_closed(),
        forall|k: int| 0 <= k < eids.len() ==> g.has_edge(#[trigger] eids[k]),
        0 <= n <= eids.len(),
    ensures
        forall|k: int|
            0 <= k < tuples_of_upto(g, eids, n).len() ==> g.has_node(
                (#[trigger] tuples_of_upto(g, eids, n)[k]).0,
            ) && g.has_node(tuples_of_upto(g, eids, n)[k].1),
    decreases n,
{
    if n > 0 {
        lemma_tuples_of_endpoints_live(g, eids, n - 1);
        let pre = tuples_of_upto(g, eids, n - 1);
        let cur = tuples_of_upto(g, eids, n);
        assert(forall|k: int| 0 <= k < pre.len() ==> cur[k] == pre[k]);
        assert(g.has_edge(eids[n - 1]));
        assert(cur[cur.len() - 1] == tuple_of(g, eids[n - 1]));
    }
}

/// In a closed graph, every incoming or outgoing edge tuple of a node
/// joins two live nodes.
pub proof fn lemma_connected_tuples_live(g: CodeGraph, id: NodeId)
    requires
        g.edges_closed(),
    ensures
        forall|k: int|
            0 <= k < spec_in_tuples(g, id).len() ==> g.has_node(
                (#[trigger] spec_in_tuples(g, id)[k]).0,
            ) && g.has_node(spec_in_tuples(g, id)[k].1),
        forall|k: int|
            0 <= k < spec_out_tuples(g, id).len() ==> g.has_node(
                (#[trigger] spec_out_tuples(g, id)[k]).0,
            ) && g.has_node(spec_out_tuples(g, id)[k].1),
{
    g.lemma_table_bounds();
    lemma_dir_tuples_live(g, id, g.spec_in_neighbors(id), false, g.spec_in_neighbors(id).len() as int);
    lemma_dir_tuples_live(g, id, g.spec_out_neighbors(id), true, g.spec_out_neighbors(id).len() as int);
}

/// The segments of a neighbor walk hold only live endpoints.
proof fn lemma_dir_tuples_live(g: CodeGraph, id: NodeId, others: Seq<NodeId>, outgoing: bool, n: int)
    requires
        g.edges_closed(),
        0 <= n <= others.len(),
    ensures
        outgoing ==> forall|k: int|
            0 <= k < out_tuples_upto(g, id, others, n).len() ==> g.has_node(
                (#[trigger] out_tuples_upto(g, id, others, n)[k]).0,
            ) && g.has_node(out_tuples_upto(g, id, others, n)[k].1),
        !outgoing ==> forall|k: int|
            0 <= k < in_tuples_upto(g, id, others, n).len() ==> g.has_node(
                (#[trigger] in_tuples_upto(g, id, others, n)[k]).0,
            ) && g.has_node(in_tuples_upto(g, id, others, n)[k].1),
    decreases n,
{
    if n > 0 {
        lemma_dir_tuples_live(g, id, others, outgoing, n - 1);
        g.lemma_table_bounds();
        if outgoing {
            let eids = g.spec_edges_between(id, others[n - 1]);
            lemma_edges_between_live(g, id, others[n - 1], g.edges_view().len() as int);
            lemma_tuples_of_endpoints_live(g, eids, eids.len() as int);
            let pre = out_tuples_upto(g, id, others, n - 1);
            let seg = tuples_of_upto(g, eids, eids.len() as int);
            let cur = out_tuples_upto(g, id, others, n);
            assert(cur == pre + seg);
            assert forall|k: int| 0 <= k < cur.len() implies g.has_node((#[trigger] cur[k]).0)
                && g.has_node(cur[k].1) by {
                if k < pre.len() {
                    assert(cur[k] == pre[k]);
                } else {
                    assert(cur[k] == seg[k - pre.len()]);
                }
            }
        } else {
            let eids = g.spec_edges_between(others[n - 1], id);
            lemma_edges_between_live(g, others[n - 1], id, g.edges_view().len() as int);
            lemma_tuples_of_endpoints_live(g, eids, eids.len() as int);
            let pre = in_tuples_upto(g, id, others, n - 1);
            let seg = tuples_of_upto(g, eids, eids.len() as int);
            let cur = in_tuples_upto(g, id, others, n);
            assert(cur == pre + seg);
            assert forall|k: int| 0 <= k < cur.len() implies g.has_node((#[trigger] cur[k]).0)
                && g.has_node(cur[k].1) by {
                if k < pre.len() {
                    assert(cur[k] == pre[k]);
                } else {
                    assert(cur[k] == seg[k - pre.len()]);
                }
            }
        }
    }
}

/// Whether an edge slot touches any of the listed ids.
pub open spec fn edge_slot_touches_any(slot: Option<Edge>, ids: Seq<NodeId>) -> bool {
    exists|m: int| 0 <= m < ids.len() && edge_touches(slot, ids[m])
}

impl CodeGraphBackend {
    /// Record a freshly parsed file: index its symbols and remember its
    /// parse summary under the editor's URI.
    pub fn open_file(&mut self, uri: &str, path: &str, info: FileInfo)
        requires
            old(self).inv(),
        ensures
            final(self).inv(),
            final(self).graph == old(self).graph,
            final(self).cached(uri@),
            forall|u: Seq<char>|
                u != uri@ ==> (#[trigger] final(self).cached(u) <==> old(self).cached(u)),
            final(self).query_cache == old(self).query_cache,
            final(self).symbol_index.file_bucket(path@) == Some(
                crate::index::indexed_ids(info.symbol_ids(), old(self).graph, path@),
            ),
            crate::index::SymbolIndex::add_file_rel(
                old(self).symbol_index,
                final(self).symbol_index,
                old(self).graph,
                path@,
                info.symbol_ids(),
            ),
    {
        self.symbol_index.add_file(path, &info, &self.graph);
        let ghost pre = self.file_cache@;
        match assoc_find(&self.file_cache, uri) {
            Some(i) => {
                self.file_cache.remove(i);
                proof {
                    lemma_assoc_unique_remove(pre, i as int);
                    assert(forall|j: int|
                        0 <= j < self.file_cache@.len() ==> (#[trigger] self.file_cache@[j]).0@
                            != uri@);
                    assert forall|u: Seq<char>| u != uri@ implies (#[trigger] assoc_lookup(
                        self.file_cache@,
                        u,
                    )) == assoc_lookup(pre, u) by {
                        lemma_assoc_lookup_remove_other(pre, i as int, u);
                    }
                }
            },
            None => {},
        }
        let ghost mid = self.file_cache@;
        proof {
            assert(forall|j: int| 0 <= j < mid.len() ==> (#[trigger] mid[j]).0@ != uri@);
            assert(forall|u: Seq<char>|
                u != uri@ ==> (#[trigger] assoc_lookup(mid, u)) == assoc_lookup(pre, u));
        }
        self.file_cache.push((uri.to_owned(), info));
        proof {
            let fin = self.file_cache@;
            assert(fin == mid.push(fin.last()));
            assert(fin.last().0@ == uri@);
            lemma_assoc_unique_push(mid, fin.last());
            lemma_assoc_lookup_at(fin, uri@, mid.len() as int);
            assert forall|u: Seq<char>| u != uri@ implies (#[trigger] assoc_lookup(fin, u))
                == assoc_lookup(pre, u) by {
                lemma_assoc_lookup_push_other(mid, fin.last(), u);
            }
        }
    }

    /// Forget an open file's parse summary; graph and index entries stay,
    /// so cross-file references keep resolving.
    pub fn close_file(&mut self, uri: &str)
        requires
            old(self).inv(),
        ensures
            final(self).inv(),
            !final(self).cached(uri@),
            forall|u: Seq<char>|
                u != uri@ ==> (#[trigger] final(self).cached(u) <==> old(self).cached(u)),
            final(self).graph == old(self).graph,
            final(self).symbol_index == old(self).symbol_index,
            final(self).query_cache == old(self).query_cache,
    {
        let ghost pre = self.file_cache@;
        match assoc_find(&self.file_cache, uri) {
            Some(i) => {
                self.file_cache.remove(i);
                proof {
                    lemma_assoc_unique_remove(pre, i as int);
                    assert(forall|j: int|
                        0 <= j < self.file_cache@.len() ==> (#[trigger] self.file_cache@[j]).0@
                            != uri@);
                    lemma_assoc_lookup_none(self.file_cache@, uri@);
                    assert forall|u: Seq<char>| u != uri@ implies (#[trigger] assoc_lookup(
                        self.file_cache@,
                        u,
                    )) == assoc_lookup(pre, u) by {
                        lemma_assoc_lookup_remove_other(pre, i as int, u);
                    }
                }
            },
            None => {
                proof {
                    lemma_assoc_lookup_none(self.file_cache@, uri@);
                }
            },
        }
    }

    /// Drop everything the editor protocol's reset names: graph, indices,
    /// and the file cache. The query caches are untouched, as the reset
    /// resets only the graph, the indices, and the file cache.
    pub fn reindex_workspace(&mut self)
        requires
            old(self).inv(),
        ensures
            final(self).inv(),
            final(self).query_cache == old(self).query_cache,
            final(self).graph.is_empty_graph(),
            final(self).cache_table().len() == 0,
            forall|nm: Seq<char>| #[trigger] final(self).symbol_index.name_bucket(nm) is None,
            forall|p: Seq<char>| #[trigger] final(self).symbol_index.file_bucket(p) is None,
            forall|t: Seq<char>| #[trigger] final(self).symbol_index.type_bucket(t) is None,
            forall|p: Seq<char>| #[trigger] final(self).symbol_index.pos_bucket(p) is None,
            forall|uri: Seq<char>| !(#[trigger] final(self).cached(uri)),
    {
        self.graph.reset();
        self.symbol_index.clear();
        self.file_cache.clear();
        proof {
            assert forall|uri: Seq<char>| !(#[trigger] final(self).cached(uri)) by {
                lemma_assoc_lookup_none(self.file_cache@, uri);
            }
        }
    }

    /// The node a position resolves to: the innermost indexed range, or,
    /// when the index knows nothing, the first of the file's nodes (in id
    /// order) whose recorded coordinates contain the position. `line` and
    /// `col` are internal coordinates: 1-indexed line, 0-indexed column.
    pub open spec fn spec_find_node(self, p: Seq<char>, line: u32, col: u32) -> Option<NodeId> {
        match self.symbol_index.pos_bucket(p) {
            Some(es) => match crate::index::spec_best(es, line, col) {
                Some(e) => Some(e.1),
                None => spec_fallback_node(
                    self.graph,
                    path_ids_upto(self.graph, p, self.graph.nodes_view().len() as int),
                    line as int,
                    col as int,
                ),
            },
            None => spec_fallback_node(
                self.graph,
                path_ids_upto(self.graph, p, self.graph.nodes_view().len() as int),
                line as int,
                col as int,
            ),
        }
    }

    /// The node at an editor position: the symbol index first; on a miss, a
    /// scan over the file's nodes in id order, first hit winning. The editor
    /// line is 0-indexed; the graph stores 1-indexed lines.
    pub fn find_node_at_position(&self, path: &str, position: Position) -> (r: Result<
        Option<NodeId>,
        crate::error::LspError,
    >)
        requires
            position.line < u32::MAX,
        ensures
            r is Ok,
            r.unwrap() == self.spec_find_node(path@, (position.line + 1) as u32, position.character),
    {
        let line = position.line + 1;
        let col = position.character;
        if let Some(id) = self.symbol_index.find_at_position(path, line, col) {
            return Ok(Some(id));
        }
        let q = self.graph.query().property(path_key(), PropertyValue::Str(path.to_owned()));
        let ghost filters = q.filters_view();
        let ids = match q.execute() {
            Ok(ids) => ids,
            Err(_) => Vec::new(),
        };
        proof {
            self.graph.lemma_table_bounds();
            lemma_path_filter_matches(self.graph, path@, filters);
            lemma_path_ids_eq(
                self.graph,
                path@,
                filters,
                self.graph.nodes_view().len() as int,
            );
        }
        let n = ids.len();
        let mut k: usize = 0;
        let ghost pids = path_ids_upto(self.graph, path@, self.graph.nodes_view().len() as int);
        proof {
            assert(pids.skip(0) =~= pids);
        }
        while k < n
            invariant
                0 <= k <= n,
                n == ids@.len(),
                position.line < u32::MAX,
                line == position.line + 1,
                col == position.character,
                ids@ == pids,
                pids == path_ids_upto(
                    self.graph,
                    path@,
                    self.graph.nodes_view().len() as int,
                ),
                forall|q2: int| 0 <= q2 < n ==> self.graph.has_node(#[trigger] ids@[q2]),
                match self.symbol_index.pos_bucket(path@) {
                    Some(es) => crate::index::spec_best(es, line, col) is None,
                    None => true,
                },
                spec_fallback_node(self.graph, pids, position.line + 1, position.character as int)
                    == spec_fallback_node(
                    self.graph,
                    pids.skip(k as int),
                    position.line + 1,
                    position.character as int,
                ),
            decreases n - k,
        {
            let id = ids[k];
            proof {
                assert(pids.skip(k as int)[0] == pids[k as int]);
                assert(pids.skip(k as int).drop_first() =~= pids.skip(k as int + 1));
            }
            let node = match self.graph.get_node(id) {
                Ok(node) => node,
                Err(_) => {
                    proof {
                        assert(self.graph.has_node(ids@[k as int]));
                    }
                    unreached()
                },
            };
            let sl = node.properties.get_int("start_line").unwrap_or(0);
            let el = node.properties.get_int("end_line").unwrap_or(0);
            let sc = node.properties.get_int("start_col").unwrap_or(0);
            let ec = node.properties.get_int("end_col").unwrap_or(i64::MAX);
            let line_i = line as i64;
            let col_i = col as i64;
            let hit = line_i >= sl && line_i <= el && !(line_i == sl && col_i < sc) && !(line_i
                == el && col_i > ec);
            proof {
                assert(*node == self.graph.node_at(id));
                assert(hit == fallback_contains(
                    self.graph,
                    id,
                    position.line + 1,
                    position.character as int,
                ));
            }
            if hit {
                proof {
                    assert(spec_fallback_node(
                        self.graph,
                        pids.skip(k as int),
                        position.line + 1,
                        position.character as int,
                    ) == Some(pids[k as int]));
                }
                return Ok(Some(id));
            }
            k += 1;
        }
        proof {
            assert(pids.skip(n as int) =~= Seq::<NodeId>::empty());
        }
        Ok(None)
    }

    /// Every edge tuple connected to a node in the given direction; for
    /// `Both`, the outgoing tuples followed by the incoming ones. A missing
    /// node yields nothing.
    pub fn get_connected_edges(&self, node_id: NodeId, direction: crate::graph::Direction) -> (r:
        Vec<(NodeId, NodeId, crate::graph::EdgeType)>)
        ensures
            !self.graph.has_node(node_id) ==> r@.len() == 0,
            self.graph.has_node(node_id) ==> r@ == (match direction {
                crate::graph::Direction::Outgoing => spec_out_tuples(self.graph, node_id),
                crate::graph::Direction::Incoming => spec_in_tuples(self.graph, node_id),
                crate::graph::Direction::Both => spec_out_tuples(self.graph, node_id)
                    + spec_in_tuples(self.graph, node_id),
            }),
    {
        match direction {
            crate::graph::Direction::Outgoing => self.collect_tuples(node_id, true),
            crate::graph::Direction::Incoming => self.collect_tuples(node_id, false),
            crate::graph::Direction::Both => {
                let mut out = self.collect_tuples(node_id, true);
                let mut inc = self.collect_tuples(node_id, false);
                out.append(&mut inc);
                out
            },
        }
    }

    /// The outgoing (or incoming) edge tuples of a node.
    fn collect_tuples(&self, node_id: NodeId, outgoing: bool) -> (r: Vec<
        (NodeId, NodeId, crate::graph::EdgeType),
    >)
        ensures
            !self.graph.has_node(node_id) ==> r@.len() == 0,
            self.graph.has_node(node_id) && outgoing ==> r@ == spec_out_tuples(
                self.graph,
                node_id,
            ),
            self.graph.has_node(node_id) && !outgoing ==> r@ == spec_in_tuples(
                self.graph,
                node_id,
            ),
    {
        let neighbors = match self.graph.get_neighbors(
            node_id,
            if outgoing {
                crate::graph::Direction::Outgoing
            } else {
                crate::graph::Direction::Incoming
            },
        ) {
            Ok(n) => n,
            Err(_) => {
                return Vec::new();
            },
        };
        let mut acc: Vec<(NodeId, NodeId, crate::graph::EdgeType)> = Vec::new();
        let n = neighbors.len();
        let mut k: usize = 0;
        while k < n
            invariant
                0 <= k <= n,
                n == neighbors@.len(),
                outgoing ==> neighbors@ == self.graph.spec_out_neighbors(node_id),
                !outgoing ==> neighbors@ == self.graph.spec_in_neighbors(node_id),
                outgoing ==> acc@ == out_tuples_upto(self.graph, node_id, neighbors@, k as int),
                !outgoing ==> acc@ == in_tuples_upto(self.graph, node_id, neighbors@, k as int),
            decreases n - k,
        {
            let nb = neighbors[k];
            let (src, dst) = if outgoing {
                (node_id, nb)
            } else {
                (nb, node_id)
            };
            let eids = match self.graph.get_edges_between(src, dst) {
                Ok(e) => e,
                Err(_) => Vec::new(),
            };
            proof {
                self.graph.lemma_table_bounds();
                lemma_edges_between_live(self.graph, src, dst, self.graph.edges_view().len() as int);
                assert(acc@ =~= old_acc_plus(
                    self,
                    node_id,
                    neighbors@,
                    k as int,
                    outgoing,
                    eids@,
                    0,
                ));
            }
            let m = eids.len();
            let mut j: usize = 0;
            while j < m
                invariant
                    0 <= j <= m,
                    m == eids@.len(),
                    eids@ == self.graph.spec_edges_between(src, dst),
                    forall|q2: int| 0 <= q2 < m ==> self.graph.has_edge(#[trigger] eids@[q2]),
                    acc@ == old_acc_plus(self, node_id, neighbors@, k as int, outgoing, eids@, j as int),
                decreases m - j,
            {
                match self.graph.get_edge(eids[j]) {
                    Ok(edge) => {
                        acc.push((edge.source_id, edge.target_id, edge.edge_type));
                    },
                    Err(_) => {},
                }
                proof {
                    assert(acc@ == old_acc_plus(
                        self,
                        node_id,
                        neighbors@,
                        k as int,
                        outgoing,
                        eids@,
                        j as int + 1,
                    ));
                }
                j += 1;
            }
            proof {
                if outgoing {
                    assert(acc@ == out_tuples_upto(
                        self.graph,
                        node_id,
                        neighbors@,
                        k as int + 1,
                    ));
                } else {
                    assert(acc@ == in_tuples_upto(self.graph, node_id, neighbors@, k as int + 1));
                }
            }
            k += 1;
        }
        acc
    }

    /// The definition a reference points at: the target of its first
    /// outgoing call, reference, or import edge.
    pub fn find_definition_for_reference(&self, ref_node_id: NodeId) -> (r: Option<NodeId>)
        ensures
            self.graph.has_node(ref_node_id) ==> r == first_def_target(
                spec_out_tuples(self.graph, ref_node_id),
            ),
            !self.graph.has_node(ref_node_id) ==> r is None,
    {
        let tuples = self.get_connected_edges(ref_node_id, crate::graph::Direction::Outgoing);
        let n = tuples.len();
        let ghost ts = tuples@;
        proof {
            assert(ts.skip(0) =~= ts);
        }
        let mut k: usize = 0;
        while k < n
            invariant
                0 <= k <= n,
                n == ts.len(),
                tuples@ == ts,
                self.graph.has_node(ref_node_id) ==> ts == spec_out_tuples(
                    self.graph,
                    ref_node_id,
                ),
                !self.graph.has_node(ref_node_id) ==> n == 0,
                first_def_target(ts) == first_def_target(ts.skip(k as int)),
            decreases n - k,
        {
            proof {
                assert(ts.skip(k as int)[0] == ts[k as int]);
                assert(ts.skip(k as int).drop_first() =~= ts.skip(k as int + 1));
            }
            let t = tuples[k];
            let def_like = match t.2 {
                crate::graph::EdgeType::Calls => true,
                crate::graph::EdgeType::References => true,
                crate::graph::EdgeType::Imports => true,
                _ => false,
            };
            if def_like {
                proof {
                    assert(first_def_target(ts.skip(k as int)) == Some(ts[k as int].1));
                }
                return Some(t.1);
            }
            k += 1;
        }
        proof {
            assert(ts.skip(n as int) =~= Seq::<(NodeId, NodeId, crate::graph::EdgeType)>::empty());
        }
        None
    }

    /// The location of a node: a `file://` URI from its recorded path, and
    /// its recorded coordinates converted to editor (0-indexed) lines.
    pub fn node_to_location(&self, node_id: NodeId) -> (r: Result<
        crate::protocol::Location,
        crate::error::LspError,
    >)
        ensures
            r matches Ok(loc) ==> self.graph.has_node(node_id) && spec_loc_opt(
                self.graph,
                node_id,
            ) == Some(loc_view(loc)),
            r is Err ==> spec_loc_opt(self.graph, node_id) is None,
    {
        let node = match self.graph.get_node(node_id) {
            Ok(node) => node,
            Err(_) => {
                return Err(crate::error::LspError::Graph("node not found".to_owned()));
            },
        };
        let path = match node.properties.get_string("path") {
            Some(p) => p,
            None => {
                return Err(
                    crate::error::LspError::NodeNotFound("missing path property".to_owned()),
                );
            },
        };
        let mut uri: String = "file://".to_owned();
        uri.append(path.as_str());
        let range = range_from_props(&node.properties);
        proof {
            assert(uri@ == spec_loc_uri(path@));
        }
        Ok(crate::protocol::Location { uri, range })
    }
}

/// The name recorded on a node, or empty.
pub open spec fn name_or_empty(g: CodeGraph, id: NodeId) -> Seq<char> {
    match crate::index::name_of(g, id) {
        Some(nm) => nm,
        None => Seq::empty(),
    }
}

/// The path recorded on a node, or empty.
pub open spec fn path_or_empty(g: CodeGraph, id: NodeId) -> Seq<char> {
    match g.node_str_prop(id, "path"@) {
        Some(p) => p,
        None => Seq::empty(),
    }
}

/// The signature recorded on a node, kept only when nonempty.
pub open spec fn sig_opt(g: CodeGraph, id: NodeId) -> Option<Seq<char>> {
    match g.node_str_prop(id, "signature"@) {
        Some(sg) => if sg.len() > 0 {
            Some(sg)
        } else {
            None
        },
        None => None,
    }
}

/// The hover text of a node: bold kind and name in a code span, a fenced
/// signature block when a nonempty signature is recorded, the doc text when
/// recorded, and a footer with the defining path and the reference count.
pub open spec fn spec_hover_text(
    kind: Seq<char>,
    name: Seq<char>,
    sig: Option<Seq<char>>,
    doc: Option<Seq<char>>,
    path: Seq<char>,
    count: nat,
) -> Seq<char> {
    "**"@ + kind + "** `"@ + name + "`"@ + (match sig {
        Some(sg) => "\n\n```\n"@ + sg + "\n```"@,
        None => Seq::empty(),
    }) + (match doc {
        Some(d) => "\n\n"@ + d,
        None => Seq::empty(),
    }) + "\n\n---\n\n**Defined in:** "@ + path + "\n**References:** "@
        + crate::payload::dec_digits(count)
}

/// The document-symbol entries of the first `n` listed ids: nodes that are
/// live and resolve to a location, projected to name, kind, and location.
pub open spec fn doc_symbols_upto(g: CodeGraph, ids: Seq<NodeId>, n: int) -> Seq<
    (Seq<char>, crate::protocol::SymbolKind, (Seq<char>, crate::protocol::Range)),
>
    decreases n,
{
    if n <= 0 {
        Seq::empty()
    } else {
        let pre = doc_symbols_upto(g, ids, n - 1);
        match spec_loc_opt(g, ids[n - 1]) {
            Some(lv) => pre.push(
                (name_or_empty(g, ids[n - 1]), spec_kind_map(g, ids[n - 1]), lv),
            ),
            None => pre,
        }
    }
}

/// The symbol kind of a node's type.
pub open spec fn spec_kind_map(g: CodeGraph, id: NodeId) -> crate::protocol::SymbolKind
    recommends
        g.has_node(id),
{
    match g.node_at(id).node_type {
        crate::graph::NodeType::Function => crate::protocol::SymbolKind::Function,
        crate::graph::NodeType::Class => crate::protocol::SymbolKind::Class,
        crate::graph::NodeType::Interface => crate::protocol::SymbolKind::Interface,
        crate::graph::NodeType::Module => crate::protocol::SymbolKind::Module,
        crate::graph::NodeType::Variable => crate::protocol::SymbolKind::Variable,
        crate::graph::NodeType::Type => crate::protocol::SymbolKind::TypeParameter,
        crate::graph::NodeType::CodeFile => crate::protocol::SymbolKind::File,
        crate::graph::NodeType::Generic => crate::protocol::SymbolKind::Variable,
    }
}

/// The reference locations of the first `n` edge tuples' sources, skipping
/// sources without a location.
pub open spec fn ref_locs_upto(
    g: CodeGraph,
    tuples: Seq<(NodeId, NodeId, crate::graph::EdgeType)>,
    n: int,
) -> Seq<(Seq<char>, crate::protocol::Range)>
    decreases n,
{
    if n <= 0 {
        Seq::empty()
    } else {
        let pre = ref_locs_upto(g, tuples, n - 1);
        match spec_loc_opt(g, tuples[n - 1].0) {
            Some(lv) => pre.push(lv),
            None => pre,
        }
    }
}

/// The view of a call-hierarchy item: name, detail, URI, range, and the
/// embedded payload.
pub open spec fn item_view(item: crate::protocol::CallHierarchyItem) -> (
    Seq<char>,
    Option<Seq<char>>,
    (Seq<char>, crate::protocol::Range),
    Seq<char>,
) {
    (
        item.name@,
        match item.detail {
            Some(d) => Some(d@),
            None => None,
        },
        (item.uri@, item.range),
        item.data@,
    )
}

/// The raw detail recorded on a node: its signature property, if any.
pub open spec fn detail_opt(g: CodeGraph, id: NodeId) -> Option<Seq<char>> {
    g.node_str_prop(id, "signature"@)
}

/// The calls derived from the first `n` edge tuples: call edges whose other
/// endpoint is live and has a location, projected to an item view.
pub open spec fn calls_upto(
    g: CodeGraph,
    tuples: Seq<(NodeId, NodeId, crate::graph::EdgeType)>,
    incoming: bool,
    n: int,
) -> Seq<(Seq<char>, Option<Seq<char>>, (Seq<char>, crate::protocol::Range), Seq<char>)>
    decreases n,
{
    if n <= 0 {
        Seq::empty()
    } else {
        let pre = calls_upto(g, tuples, incoming, n - 1);
        let other = if incoming {
            tuples[n - 1].0
        } else {
            tuples[n - 1].1
        };
        if tuples[n - 1].2 == crate::graph::EdgeType::Calls && g.has_node(other) {
            match spec_loc_opt(g, other) {
                Some(lv) => pre.push(
                    (
                        name_or_empty(g, other),
                        detail_opt(g, other),
                        lv,
                        crate::payload::spec_payload(other),
                    ),
                ),
                None => pre,
            }
        } else {
            pre
        }
    }
}

/// The commands the server understands.
#[derive(Clone, Copy, Debug, PartialEq, Eq, Structural)]
pub enum CommandKind {
    GetDependencyGraph,
    GetCallGraph,
    AnalyzeImpact,
    GetParserMetrics,
    ReindexWorkspace,
    GetAIContext,
    GetNodeLocation,
    GetWorkspaceSymbols,
}

/// The command a request names, if the server understands it.
pub open spec fn spec_parse_command(s: Seq<char>) -> Option<CommandKind> {
    if s == "codegraph.getDependencyGraph"@ {
        Some(CommandKind::GetDependencyGraph)
    } else if s == "codegraph.getCallGraph"@ {
        Some(CommandKind::GetCallGraph)
    } else if s == "codegraph.analyzeImpact"@ {
        Some(CommandKind::AnalyzeImpact)
    } else if s == "codegraph.getParserMetrics"@ {
        Some(CommandKind::GetParserMetrics)
    } else if s == "codegraph.reindexWorkspace"@ {
        Some(CommandKind::ReindexWorkspace)
    } else if s == "codegraph.getAIContext"@ {
        Some(CommandKind::GetAIContext)
    } else if s == "codegraph.getNodeLocation"@ {
        Some(CommandKind::GetNodeLocation)
    } else if s == "codegraph.getWorkspaceSymbols"@ {
        Some(CommandKind::GetWorkspaceSymbols)
    } else {
        None
    }
}

/// The command a request names, if the server understands it.
pub fn parse_command(command: &str) -> (r: Option<CommandKind>)
    ensures
        r == spec_parse_command(command@),
{
    if crate::props::str_eq(command, "codegraph.getDependencyGraph") {
        Some(CommandKind::GetDependencyGraph)
    } else if crate::props::str_eq(command, "codegraph.getCallGraph") {
        Some(CommandKind::GetCallGraph)
    } else if crate::props::str_eq(command, "codegraph.analyzeImpact") {
        Some(CommandKind::AnalyzeImpact)
    } else if crate::props::str_eq(command, "codegraph.getParserMetrics") {
        Some(CommandKind::GetParserMetrics)
    } else if crate::props::str_eq(command, "codegraph.reindexWorkspace") {
        Some(CommandKind::ReindexWorkspace)
    } else if crate::props::str_eq(command, "codegraph.getAIContext") {
        Some(CommandKind::GetAIContext)
    } else if crate::props::str_eq(command, "codegraph.getNodeLocation") {
        Some(CommandKind::GetNodeLocation)
    } else if crate::props::str_eq(command, "codegraph.getWorkspaceSymbols") {
        Some(CommandKind::GetWorkspaceSymbols)
    } else {
        None
    }
}

/// The names of the commands the server announces, in a fixed order.
pub fn supported_commands() -> (r: Vec<&'static str>)
    ensures
        r@.len() == 8,
        r@[0]@ == "codegraph.getDependencyGraph"@,
        r@[1]@ == "codegraph.getCallGraph"@,
        r@[2]@ == "codegraph.analyzeImpact"@,
        r@[3]@ == "codegraph.getParserMetrics"@,
        r@[4]@ == "codegraph.reindexWorkspace"@,
        r@[5]@ == "codegraph.getAIContext"@,
        r@[6]@ == "codegraph.getNodeLocation"@,
        r@[7]@ == "codegraph.getWorkspaceSymbols"@,
{
    let mut r: Vec<&'static str> = Vec::new();
    r.push("codegraph.getDependencyGraph");
    r.push("codegraph.getCallGraph");
    r.push("codegraph.analyzeImpact");
    r.push("codegraph.getParserMetrics");
    r.push("codegraph.reindexWorkspace");
    r.push("codegraph.getAIContext");
    r.push("codegraph.getNodeLocation");
    r.push("codegraph.getWorkspaceSymbols");
    r
}

impl CodeGraphBackend {
    /// Answer a goto-definition request: resolve the position to a node,
    /// follow its first call, reference, or import edge to the definition
    /// (or stay on the node), and return that node's location.
    pub fn goto_definition(&self, path: &str, position: Position) -> (r: Result<
        Option<crate::protocol::Location>,
        crate::error::LspError,
    >)
        requires
            self.inv(),
            position.line < u32::MAX,
        ensures
            match self.spec_find_node(path@, (position.line + 1) as u32, position.character) {
                None => r matches Ok(None),
                Some(nid) => {
                    let d = match first_def_target(spec_out_tuples(self.graph, nid)) {
                        Some(t) => t,
                        None => nid,
                    };
                    match spec_loc_opt(self.graph, d) {
                        Some(lv) => r matches Ok(Some(loc)) && loc_view(loc) == lv,
                        None => r is Err,
                    }
                },
            },
    {
        let node_id = match self.find_node_at_position(path, position) {
            Ok(Some(id)) => id,
            Ok(None) => {
                return Ok(None);
            },
            Err(e) => {
                return Err(e);
            },
        };
        proof {
            lemma_found_node_live(*self, path@, (position.line + 1) as u32, position.character);
        }
        let def_id = match self.find_definition_for_reference(node_id) {
            Some(d) => d,
            None => node_id,
        };
        proof {
            let nid = self.spec_find_node(
                path@,
                (position.line + 1) as u32,
                position.character,
            ).unwrap();
            assert(nid == node_id);
            assert(self.graph.has_node(node_id));
            assert(def_id == (match first_def_target(spec_out_tuples(self.graph, nid)) {
                Some(t) => t,
                None => nid,
            }));
        }
        let out: Result<Option<crate::protocol::Location>, crate::error::LspError> = match self
            .node_to_location(def_id) {
            Ok(loc) => Ok(Some(loc)),
            Err(e) => Err(e),
        };
        proof {
            match spec_loc_opt(self.graph, def_id) {
                Some(lv) => {
                    assert(out matches Ok(Some(loc)) && loc_view(loc) == lv);
                },
                None => {
                    assert(out is Err);
                },
            }
        }
        out
    }

    /// Answer a find-references request: resolve the position, follow it to
    /// its definition, optionally prepend the declaration's location, then
    /// list the locations of every incoming edge's source. No location at
    /// all answers `None`.
    pub fn references(&self, path: &str, position: Position, include_declaration: bool) -> (r:
        Result<Option<Vec<crate::protocol::Location>>, crate::error::LspError>)
        requires
            self.inv(),
            position.line < u32::MAX,
        ensures
            match self.spec_find_node(path@, (position.line + 1) as u32, position.character) {
                None => r matches Ok(None),
                Some(nid) => {
                    let d = match first_def_target(spec_out_tuples(self.graph, nid)) {
                        Some(t) => t,
                        None => nid,
                    };
                    let decl = (if include_declaration {
                        match spec_loc_opt(self.graph, d) {
                            Some(lv) => seq![lv],
                            None => Seq::empty(),
                        }
                    } else {
                        Seq::empty()
                    });
                    let tuples = spec_in_tuples(self.graph, d);
                    let all = decl + ref_locs_upto(self.graph, tuples, tuples.len() as int);
                    if all.len() == 0 {
                        r matches Ok(None)
                    } else {
                        r matches Ok(Some(v)) && v@.map_values(
                            |loc: crate::protocol::Location| loc_view(loc),
                        ) == all
                    }
                },
            },
    {
        let node_id = match self.find_node_at_position(path, position) {
            Ok(Some(id)) => id,
            Ok(None) => {
                return Ok(None);
            },
            Err(e) => {
                return Err(e);
            },
        };
        proof {
            lemma_found_node_live(*self, path@, (position.line + 1) as u32, position.character);
        }
        let def_id = match self.find_definition_for_reference(node_id) {
            Some(d) => d,
            None => node_id,
        };
        let mut locations: Vec<crate::protocol::Location> = Vec::new();
        let ghost decl = (if include_declaration {
            match spec_loc_opt(self.graph, def_id) {
                Some(lv) => seq![lv],
                None => Seq::<(Seq<char>, crate::protocol::Range)>::empty(),
            }
        } else {
            Seq::<(Seq<char>, crate::protocol::Range)>::empty()
        });
        if include_declaration {
            match self.node_to_location(def_id) {
                Ok(loc) => {
                    locations.push(loc);
                },
                Err(_) => {},
            }
        }
        proof {
            assert(locations@.len() == decl.len());
            assert(forall|i: int|
                0 <= i < locations@.len() ==> loc_view(#[trigger] locations@[i]) == decl[i]);
        }
        let tuples = self.get_connected_edges(def_id, crate::graph::Direction::Incoming);
        let ghost ts = tuples@;
        proof {
            if !self.graph.has_node(def_id) {
                assert(ts.len() == 0);
                assert(ref_locs_upto(self.graph, spec_in_tuples(self.graph, def_id), 0)
                    == Seq::<(Seq<char>, crate::protocol::Range)>::empty());
            }
        }
        let n = tuples.len();
        let mut k: usize = 0;
        while k < n
            invariant
                0 <= k <= n,
                n == ts.len(),
                tuples@ == ts,
                locations@.len() == decl.len() + ref_locs_upto(self.graph, ts, k as int).len(),
                forall|i: int|
                    0 <= i < locations@.len() ==> loc_view(#[trigger] locations@[i]) == (decl
                        + ref_locs_upto(self.graph, ts, k as int))[i],
            decreases n - k,
        {
            let src = tuples[k].0;
            let ghost pre_locs = locations@;
            match self.node_to_location(src) {
                Ok(loc) => {
                    proof {
                        assert(spec_loc_opt(self.graph, ts[k as int].0) == Some(loc_view(loc)));
                        assert(ref_locs_upto(self.graph, ts, k as int + 1) == ref_locs_upto(
                            self.graph,
                            ts,
                            k as int,
                        ).push(loc_view(loc)));
                    }
                    locations.push(loc);
                    proof {
                        assert(forall|i: int|
                            0 <= i < pre_locs.len() ==> locations@[i] == pre_locs[i]);
                        assert(loc_view(locations@[locations@.len() - 1]) == (decl
                            + ref_locs_upto(self.graph, ts, k as int + 1))[locations@.len() - 1]);
                    }
                },
                Err(_) => {
                    proof {
                        assert(ref_locs_upto(self.graph, ts, k as int + 1) == ref_locs_upto(
                            self.graph,
                            ts,
                            k as int,
                        ));
                    }
                },
            }
            k += 1;
        }
        proof {
            if self.graph.has_node(def_id) {
                assert(ts == spec_in_tuples(self.graph, def_id));
            } else {
                self.graph.lemma_dead_node_isolated(def_id);
                assert(spec_in_tuples(self.graph, def_id).len() == 0);
                assert(ts =~= spec_in_tuples(self.graph, def_id));
            }
            assert(locations@.map_values((|loc: crate::protocol::Location| loc_view(loc))) =~~= decl
                + ref_locs_upto(self.graph, ts, n as int));
        }
        if locations.len() == 0 {
            Ok(None)
        } else {
            Ok(Some(locations))
        }
    }

    /// The markdown hover text of the symbol at a position.
    pub fn hover(&self, path: &str, position: Position) -> (r: Result<
        Option<String>,
        crate::error::LspError,
    >)
        requires
            self.inv(),
            position.line < u32::MAX,
        ensures
            match self.spec_find_node(path@, (position.line + 1) as u32, position.character) {
                None => r matches Ok(None),
                Some(nid) => r matches Ok(Some(content)) && content@ == spec_hover_text(
                    crate::index::kind_of(self.graph, nid),
                    name_or_empty(self.graph, nid),
                    sig_opt(self.graph, nid),
                    self.graph.node_str_prop(nid, "doc"@),
                    path_or_empty(self.graph, nid),
                    spec_in_tuples(self.graph, nid).len(),
                ),
            },
    {
        let node_id = match self.find_node_at_position(path, position) {
            Ok(Some(id)) => id,
            Ok(None) => {
                return Ok(None);
            },
            Err(e) => {
                return Err(e);
            },
        };
        proof {
            lemma_found_node_live(*self, path@, (position.line + 1) as u32, position.character);
        }
        let node = match self.graph.get_node(node_id) {
            Ok(node) => node,
            Err(_) => unreached(),
        };
        let in_tuples = self.get_connected_edges(node_id, crate::graph::Direction::Incoming);
        let ref_count = in_tuples.len();
        let mut content: String = "**".to_owned();
        content.append(node.node_type.kind_name());
        content.append("** `");
        match node.properties.get_string("name") {
            Some(nm) => {
                let nm2 = nm.clone();
                content.append(nm2.as_str());
            },
            None => {},
        }
        content.append("`");
        match node.properties.get_string("signature") {
            Some(sg) => {
                if sg.unicode_len() > 0 {
                    let sg2 = sg.clone();
                    content.append("\n\n```\n");
                    content.append(sg2.as_str());
                    content.append("\n```");
                }
            },
            None => {},
        }
        match node.properties.get_string("doc") {
            Some(d) => {
                let d2 = d.clone();
                content.append("\n\n");
                content.append(d2.as_str());
            },
            None => {},
        }
        content.append("\n\n---\n\n**Defined in:** ");
        match node.properties.get_string("path") {
            Some(p) => {
                let p2 = p.clone();
                content.append(p2.as_str());
            },
            None => {},
        }
        content.append("\n**References:** ");
        let digits = crate::payload::u64_to_dec(ref_count as u64);
        content.append(digits.as_str());
        proof {
            assert(content@ =~= spec_hover_text(
                crate::index::kind_of(self.graph, node_id),
                name_or_empty(self.graph, node_id),
                sig_opt(self.graph, node_id),
                self.graph.node_str_prop(node_id, "doc"@),
                path_or_empty(self.graph, node_id),
                spec_in_tuples(self.graph, node_id).len(),
            ));
        }
        Ok(Some(content))
    }

    /// Every symbol indexed for a file, projected to name, kind, and
    /// location; `None` when nothing is indexed or nothing has a location.
    pub fn document_symbol(&self, path: &str) -> (r: Option<
        Vec<crate::protocol::SymbolInformation>,
    >)
        ensures
            ({
                let ids = crate::index::bucket_or_empty(self.symbol_index.files_table(), path@);
                let syms = doc_symbols_upto(self.graph, ids, ids.len() as int);
                if syms.len() == 0 {
                    r is None
                } else {
                    r matches Some(v) && v@.map_values(
                        (|si: crate::protocol::SymbolInformation|
                            (si.name@, si.kind, loc_view(si.location))),
                    ) == syms
                }
            }),
    {
        let ids = self.symbol_index.get_file_symbols(path);
        let ghost iv = ids@;
        let mut symbols: Vec<crate::protocol::SymbolInformation> = Vec::new();
        let n = ids.len();
        let mut k: usize = 0;
        proof {
            assert(symbols@.map_values(
                (|si: crate::protocol::SymbolInformation|
                    (si.name@, si.kind, loc_view(si.location))),
            ) =~~= doc_symbols_upto(self.graph, iv, 0));
        }
        while k < n
            invariant
                0 <= k <= n,
                n == iv.len(),
                ids@ == iv,
                symbols@.map_values(
                    (|si: crate::protocol::SymbolInformation|
                        (si.name@, si.kind, loc_view(si.location))),
                ) == doc_symbols_upto(self.graph, iv, k as int),
            decreases n - k,
        {
            let id = ids[k];
            match self.graph.get_node(id) {
                Ok(node) => {
                    let name: String = match node.properties.get_string("name") {
                        Some(nm) => nm.clone(),
                        None => String::new(),
                    };
                    let kind = kind_map_exec(node.node_type);
                    match self.node_to_location(id) {
                        Ok(location) => {
                            symbols.push(
                                crate::protocol::SymbolInformation { name, kind, location },
                            );
                            proof {
                                assert(symbols@.map_values(
                                    (|si: crate::protocol::SymbolInformation|
                                        (si.name@, si.kind, loc_view(si.location))),
                                ) =~~= doc_symbols_upto(self.graph, iv, k as int + 1));
                            }
                        },
                        Err(_) => {
                            proof {
                                assert(symbols@.map_values(
                                    (|si: crate::protocol::SymbolInformation|
                                        (si.name@, si.kind, loc_view(si.location))),
                                ) =~~= doc_symbols_upto(self.graph, iv, k as int + 1));
                            }
                        },
                    }
                },
                Err(_) => {
                    proof {
                        assert(symbols@.map_values(
                            (|si: crate::protocol::SymbolInformation|
                                (si.name@, si.kind, loc_view(si.location))),
                        ) =~~= doc_symbols_upto(self.graph, iv, k as int + 1));
                    }
                },
            }
            k += 1;
        }
        if symbols.len() == 0 {
            None
        } else {
            Some(symbols)
        }
    }

    /// Prepare a call hierarchy at a position: only function symbols
    /// qualify; the returned item embeds the node id as an opaque payload.
    pub fn prepare_call_hierarchy(&self, path: &str, position: Position) -> (r: Result<
        Option<Vec<crate::protocol::CallHierarchyItem>>,
        crate::error::LspError,
    >)
        requires
            self.inv(),
            position.line < u32::MAX,
        ensures
            match self.spec_find_node(path@, (position.line + 1) as u32, position.character) {
                None => r matches Ok(None),
                Some(nid) => {
                    if crate::index::kind_of(self.graph, nid)
                        != crate::graph::NodeType::Function.spec_kind_name() {
                        r matches Ok(None)
                    } else {
                        match spec_loc_opt(self.graph, nid) {
                            Some(lv) => r matches Ok(Some(v)) && v@.len() == 1 && item_view(
                                v@[0],
                            ) == (
                                name_or_empty(self.graph, nid),
                                detail_opt(self.graph, nid),
                                lv,
                                crate::payload::spec_payload(nid),
                            ) && v@[0].kind == crate::protocol::SymbolKind::Function
                                && v@[0].selection_range == lv.1,
                            None => r is Err,
                        }
                    }
                },
            },
    {
        let node_id = match self.find_node_at_position(path, position) {
            Ok(Some(id)) => id,
            Ok(None) => {
                return Ok(None);
            },
            Err(e) => {
                return Err(e);
            },
        };
        proof {
            lemma_found_node_live(*self, path@, (position.line + 1) as u32, position.character);
        }
        let node = match self.graph.get_node(node_id) {
            Ok(node) => node,
            Err(_) => unreached(),
        };
        let is_function = match node.node_type {
            crate::graph::NodeType::Function => true,
            _ => false,
        };
        if !is_function {
            proof {
                assert(crate::index::kind_of(self.graph, node_id)
                    != crate::graph::NodeType::Function.spec_kind_name()) by {
                    reveal_strlit("Function");
                    reveal_strlit("Class");
                    reveal_strlit("Interface");
                    reveal_strlit("Module");
                    reveal_strlit("Variable");
                    reveal_strlit("Type");
                    reveal_strlit("CodeFile");
                    reveal_strlit("Generic");
                    assert(("Function"@).len() == 8);
                    assert(("Class"@).len() == 5);
                    assert(("Interface"@).len() == 9);
                    assert(("Module"@).len() == 6);
                    assert(("Variable"@).len() == 8);
                    assert(("Type"@).len() == 4);
                    assert(("CodeFile"@).len() == 8);
                    assert(("Generic"@).len() == 7);
                    assert(("Variable"@)[0] == 'V' && ("Function"@)[0] == 'F');
                    assert(("CodeFile"@)[0] == 'C' && ("Function"@)[0] == 'F');
                }
            }
            return Ok(None);
        }
        let name: String = match node.properties.get_string("name") {
            Some(nm) => nm.clone(),
            None => String::new(),
        };
        let detail: Option<String> = match node.properties.get_string("signature") {
            Some(sg) => Some(sg.clone()),
            None => None,
        };
        let location = match self.node_to_location(node_id) {
            Ok(loc) => loc,
            Err(e) => {
                return Err(e);
            },
        };
        let data = crate::payload::encode_node_id_payload(node_id);
        let item = crate::protocol::CallHierarchyItem {
            name,
            kind: crate::protocol::SymbolKind::Function,
            detail,
            uri: location.uri,
            range: location.range,
            selection_range: location.range,
            data,
        };
        let mut v: Vec<crate::protocol::CallHierarchyItem> = Vec::new();
        v.push(item);
        Ok(Some(v))
    }

    /// The calls into the function an item's payload names.
    pub fn incoming_calls(&self, payload: &str) -> (r: Result<
        Option<Vec<crate::protocol::CallHierarchyCall>>,
        crate::error::LspError,
    >)
        ensures
            forall|id: u64|
                payload@ == crate::payload::spec_payload(id) ==> ({
                    let tuples = spec_in_tuples(self.graph, id);
                    let calls = calls_upto(self.graph, tuples, true, tuples.len() as int);
                    if !self.graph.has_node(id) || calls.len() == 0 {
                        r matches Ok(None)
                    } else {
                        r matches Ok(Some(v)) && v@.map_values(
                            (|c: crate::protocol::CallHierarchyCall| item_view(c.item)),
                        ) == calls
                    }
                }),
    {
        self.calls_of_payload(payload, true)
    }

    /// The calls out of the function an item's payload names.
    pub fn outgoing_calls(&self, payload: &str) -> (r: Result<
        Option<Vec<crate::protocol::CallHierarchyCall>>,
        crate::error::LspError,
    >)
        ensures
            forall|id: u64|
                payload@ == crate::payload::spec_payload(id) ==> ({
                    let tuples = spec_out_tuples(self.graph, id);
                    let calls = calls_upto(self.graph, tuples, false, tuples.len() as int);
                    if !self.graph.has_node(id) || calls.len() == 0 {
                        r matches Ok(None)
                    } else {
                        r matches Ok(Some(v)) && v@.map_values(
                            (|c: crate::protocol::CallHierarchyCall| item_view(c.item)),
                        ) == calls
                    }
                }),
    {
        self.calls_of_payload(payload, false)
    }

    /// The calls touching the function an item's payload names.
    fn calls_of_payload(&self, payload: &str, incoming: bool) -> (r: Result<
        Option<Vec<crate::protocol::CallHierarchyCall>>,
        crate::error::LspError,
    >)
        ensures
            forall|id: u64|
                payload@ == crate::payload::spec_payload(id) ==> ({
                    let tuples = (if incoming {
                        spec_in_tuples(self.graph, id)
                    } else {
                        spec_out_tuples(self.graph, id)
                    });
                    let calls = calls_upto(self.graph, tuples, incoming, tuples.len() as int);
                    if !self.graph.has_node(id) || calls.len() == 0 {
                        r matches Ok(None)
                    } else {
                        r matches Ok(Some(v)) && v@.map_values(
                            (|c: crate::protocol::CallHierarchyCall| item_view(c.item)),
                        ) == calls
                    }
                }),
    {
        let node_id = match crate::payload::extract_node_id_payload(payload) {
            Some(id) => id,
            None => {
                return Err(crate::error::LspError::NodeNotFound("invalid payload".to_owned()));
            },
        };
        let tuples = self.get_connected_edges(
            node_id,
            if incoming {
                crate::graph::Direction::Incoming
            } else {
                crate::graph::Direction::Outgoing
            },
        );
        let ghost ts = tuples@;
        let ghost live = self.graph.has_node(node_id);
        let mut calls: Vec<crate::protocol::CallHierarchyCall> = Vec::new();
        let n = tuples.len();
        let mut k: usize = 0;
        proof {
            assert(calls@.map_values((|c: crate::protocol::CallHierarchyCall| item_view(c.item)))
                =~~= calls_upto(self.graph, ts, incoming, 0));
        }
        while k < n
            invariant
                0 <= k <= n,
                n == ts.len(),
                tuples@ == ts,
                calls@.map_values((|c: crate::protocol::CallHierarchyCall| item_view(c.item)))
                    == calls_upto(self.graph, ts, incoming, k as int),
            decreases n - k,
        {
            let t = tuples[k];
            let other = if incoming {
                t.0
            } else {
                t.1
            };
            let is_call = match t.2 {
                crate::graph::EdgeType::Calls => true,
                _ => false,
            };
            let mut handled = false;
            if is_call {
                match self.graph.get_node(other) {
                    Ok(node) => {
                        match self.node_to_location(other) {
                            Ok(location) => {
                                let name: String = match node.properties.get_string("name") {
                                    Some(nm) => nm.clone(),
                                    None => String::new(),
                                };
                                let detail: Option<String> = match node.properties.get_string(
                                    "signature",
                                ) {
                                    Some(sg) => Some(sg.clone()),
                                    None => None,
                                };
                                let data = crate::payload::encode_node_id_payload(other);
                                let item = crate::protocol::CallHierarchyItem {
                                    name,
                                    kind: crate::protocol::SymbolKind::Function,
                                    detail,
                                    uri: location.uri,
                                    range: location.range,
                                    selection_range: location.range,
                                    data,
                                };
                                let mut from_ranges: Vec<crate::protocol::Range> = Vec::new();
                                from_ranges.push(location.range);
                                calls.push(
                                    crate::protocol::CallHierarchyCall { item, from_ranges },
                                );
                                handled = true;
                                proof {
                                    assert(calls@.map_values(
                                        (|c: crate::protocol::CallHierarchyCall|
                                            item_view(c.item)),
                                    ) =~~= calls_upto(self.graph, ts, incoming, k as int + 1));
                                }
                            },
                            Err(_) => {},
                        }
                    },
                    Err(_) => {},
                }
            }
            if !handled {
                proof {
                    assert(calls@.map_values(
                        (|c: crate::protocol::CallHierarchyCall| item_view(c.item)),
                    ) =~~= calls_upto(self.graph, ts, incoming, k as int + 1));
                }
            }
            k += 1;
        }
        proof {
            if live {
                if incoming {
                    assert(ts == spec_in_tuples(self.graph, node_id));
                } else {
                    assert(ts == spec_out_tuples(self.graph, node_id));
                }
            } else {
                assert(ts.len() == 0);
            }
        }
        if calls.len() == 0 {
            Ok(None)
        } else {
            Ok(Some(calls))
        }
    }

    /// The source text recorded on a node, if any.
    pub fn get_node_source_code(&self, node_id: NodeId) -> (r: Option<String>)
        ensures
            r matches Some(src) ==> self.graph.node_str_prop(node_id, "source"@) == Some(src@),
            r is None ==> self.graph.node_str_prop(node_id, "source"@) is None,
    {
        match self.graph.get_node(node_id) {
            Ok(node) => {
                match node.properties.get_string("source") {
                    Some(src) => Some(src.clone()),
                    None => None,
                }
            },
            Err(_) => None,
        }
    }
}

/// The symbol kind of a node type.
fn kind_map_exec(nt: crate::graph::NodeType) -> (r: crate::protocol::SymbolKind)
    ensures
        forall|g: CodeGraph, id: NodeId|
            g.has_node(id) && g.node_at(id).node_type == nt ==> #[trigger] spec_kind_map(g, id)
                == r,
{
    match nt {
        crate::graph::NodeType::Function => crate::protocol::SymbolKind::Function,
        crate::graph::NodeType::Class => crate::protocol::SymbolKind::Class,
        crate::graph::NodeType::Interface => crate::protocol::SymbolKind::Interface,
        crate::graph::NodeType::Module => crate::protocol::SymbolKind::Module,
        crate::graph::NodeType::Variable => crate::protocol::SymbolKind::Variable,
        crate::graph::NodeType::Type => crate::protocol::SymbolKind::TypeParameter,
        crate::graph::NodeType::CodeFile => crate::protocol::SymbolKind::File,
        crate::graph::NodeType::Generic => crate::protocol::SymbolKind::Variable,
    }
}

/// A node the resolver finds is live: the index only holds live nodes, and
/// the fallback only reports live ones.
pub proof fn lemma_found_node_live(b: CodeGraphBackend, p: Seq<char>, line: u32, col: u32)
    requires
        b.inv(),
        b.spec_find_node(p, line, col) is Some,
    ensures
        b.graph.has_node(b.spec_find_node(p, line, col).unwrap()),
{
    let found = b.spec_find_node(p, line, col).unwrap();
    match b.symbol_index.pos_bucket(p) {
        Some(es) => {
            match crate::index::spec_best(es, line, col) {
                Some(e) => {
                    crate::index::lemma_best_props(es, line, col);
                    let w = choose|w: int| 0 <= w < es.len() && es[w] == e;
                    assert(crate::index::admitted(b.graph, p, es[w].1));
                },
                None => {
                    lemma_path_ids_live(b.graph, p, b.graph.nodes_view().len() as int);
                    lemma_fallback_live(
                        b.graph,
                        path_ids_upto(b.graph, p, b.graph.nodes_view().len() as int),
                        line as int,
                        col as int,
                    );
                },
            }
        },
        None => {
            lemma_path_ids_live(b.graph, p, b.graph.nodes_view().len() as int);
            lemma_fallback_live(
                b.graph,
                path_ids_upto(b.graph, p, b.graph.nodes_view().len() as int),
                line as int,
                col as int,
            );
        },
    }
}

/// The file scan's list holds only live nodes.
proof fn lemma_path_ids_live(g: CodeGraph, p: Seq<char>, n: int)
    ensures
        forall|k: int|
            0 <= k < path_ids_upto(g, p, n).len() ==> g.has_node(
                #[trigger] path_ids_upto(g, p, n)[k],
            ),
    decreases n,
{
    if n > 0 {
        lemma_path_ids_live(g, p, n - 1);
        let pre = path_ids_upto(g, p, n - 1);
        let cur = path_ids_upto(g, p, n);
        assert(forall|k: int| 0 <= k < pre.len() ==> cur[k] == pre[k]);
    }
}

/// The fallback scan only reports ids from its list, which are live.
proof fn lemma_fallback_live(g: CodeGraph, ids: Seq<NodeId>, line: int, col: int)
    requires
        forall|k: int| 0 <= k < ids.len() ==> g.has_node(#[trigger] ids[k]),
        spec_fallback_node(g, ids, line, col) is Some,
    ensures
        g.has_node(spec_fallback_node(g, ids, line, col).unwrap()),
    decreases ids.len(),
{
    if ids.len() > 0 {
        if !fallback_contains(g, ids[0], line, col) {
            assert(forall|k: int| 0 <= k < ids.drop_first().len() ==> g.has_node(
                #[trigger] ids.drop_first()[k],
            ));
            lemma_fallback_live(g, ids.drop_first(), line, col);
        }
    }
}

/// What the inner collection loop has accumulated: the tuples of the first
/// `k` neighbors, then the first `j` edges of the current neighbor.
pub open spec fn old_acc_plus(
    b: &CodeGraphBackend,
    node_id: NodeId,
    neighbors: Seq<NodeId>,
    k: int,
    outgoing: bool,
    eids: Seq<crate::graph::EdgeId>,
    j: int,
) -> Seq<(NodeId, NodeId, crate::graph::EdgeType)> {
    (if outgoing {
        out_tuples_upto(b.graph, node_id, neighbors, k)
    } else {
        in_tuples_upto(b.graph, node_id, neighbors, k)
    }) + tuples_of_upto(b.graph, eids, j)
}

/// The editor range recorded on a node, with the resolver's defaults.
fn range_from_props(props: &crate::props::PropertyMap) -> (r: crate::protocol::Range)
    ensures
        r == spec_node_range(*props),
{
    let sl = clamp_u32_exec(props.get_int("start_line").unwrap_or(1));
    let sc = clamp_u32_exec(props.get_int("start_col").unwrap_or(0));
    let el = match props.get_int("end_line") {
        Some(v) => clamp_u32_exec(v),
        None => sl,
    };
    let ec = clamp_u32_exec(props.get_int("end_col").unwrap_or(0));
    proof {
        assert(el == clamp_u32(
            match props.spec_get_int("end_line"@) {
                Some(v) => v,
                None => (clamp_u32(
                    match props.spec_get_int("start_line"@) {
                        Some(v) => v,
                        None => 1,
                    },
                ) as i64),
            },
        ));
    }
    crate::protocol::Range {
        start: Position {
            line: if sl >= 1 {
                sl - 1
            } else {
                0
            },
            character: sc,
        },
        end: Position {
            line: if el >= 1 {
                el - 1
            } else {
                0
            },
            character: ec,
        },
    }
}

/// Clamp a signed property value to a coordinate.
fn clamp_u32_exec(v: i64) -> (r: u32)
    ensures
        r == clamp_u32(v),
{
    if v < 0 {
        0
    } else if v > u32::MAX as i64 {
        u32::MAX
    } else {
        v as u32
    }
}

/// A slot matching the path filter is exactly a live node recorded under
/// the path.
proof fn lemma_path_filter_matches(
    g: CodeGraph,
    p: Seq<char>,
    filters: Seq<(String, PropertyValue)>,
)
    requires
        filters.len() == 1,
        filters[0].0@ == "path"@,
        filters[0].1 matches PropertyValue::Str(pv) && pv@ == p,
    ensures
        forall|id: NodeId|
            id < g.nodes_view().len() ==> (slot_matches_all(
                #[trigger] g.nodes_view()[id as int],
                filters,
            ) <==> path_node(g, id, p)),
{
    assert forall|id: NodeId| id < g.nodes_view().len() implies (slot_matches_all(
        #[trigger] g.nodes_view()[id as int],
        filters,
    ) <==> path_node(g, id, p)) by {
        match g.nodes_view()[id as int] {
            Some(node) => {
                if path_node(g, id, p) {
                    assert(crate::graph::slot_matches(
                        g.nodes_view()[id as int],
                        filters[0].0@,
                        filters[0].1,
                    ));
                    assert(forall|fi: int|
                        0 <= fi < filters.len() ==> crate::graph::slot_matches(
                            g.nodes_view()[id as int],
                            (#[trigger] filters[fi]).0@,
                            filters[fi].1,
                        ));
                }
                if slot_matches_all(g.nodes_view()[id as int], filters) {
                    assert(crate::graph::slot_matches(
                        g.nodes_view()[id as int],
                        filters[0].0@,
                        filters[0].1,
                    ));
                }
            },
            None => {},
        }
    }
}

/// A path-filter query selects exactly the live nodes recorded under the
/// path, in the same ascending order.
proof fn lemma_path_ids_eq(
    g: CodeGraph,
    p: Seq<char>,
    filters: Seq<(String, PropertyValue)>,
    n: int,
)
    requires
        filters.len() == 1,
        filters[0].0@ == "path"@,
        filters[0].1 matches PropertyValue::Str(pv) && pv@ == p,
        0 <= n <= g.nodes_view().len(),
        n <= u64::MAX,
    ensures
        crate::graph::ids_matching_upto(g.nodes_view(), filters, n) == path_ids_upto(g, p, n),
        forall|k: int|
            0 <= k < path_ids_upto(g, p, n).len() ==> g.has_node(
                #[trigger] path_ids_upto(g, p, n)[k],
            ),
    decreases n,
{
    lemma_path_filter_matches(g, p, filters);
    if n > 0 {
        lemma_path_ids_eq(g, p, filters, n - 1);
        let pre = path_ids_upto(g, p, n - 1);
        let cur = path_ids_upto(g, p, n);
        assert(forall|k: int| 0 <= k < pre.len() ==> cur[k] == pre[k]);
        let id = (n - 1) as NodeId;
        assert(id < g.nodes_view().len());
        assert(slot_matches_all(g.nodes_view()[id as int], filters) <==> path_node(g, id, p));
        assert(crate::graph::ids_matching_upto(g.nodes_view(), filters, n)
            == if slot_matches_all(g.nodes_view()[n - 1], filters) {
            crate::graph::ids_matching_upto(g.nodes_view(), filters, n - 1).push(id)
        } else {
            crate::graph::ids_matching_upto(g.nodes_view(), filters, n - 1)
        });
        assert(cur == if path_node(g, id, p) {
            pre.push(id)
        } else {
            pre
        });
        assert forall|k: int| 0 <= k < cur.len() implies g.has_node(#[trigger] cur[k]) by {
            if k < pre.len() {
                assert(g.has_node(pre[k]));
            } else {
                assert(cur[k] == id);
            }
        }
    }
}

/// The graph's tables fit in memory.
proof fn proof_graph_bounds(g: CodeGraph)
    ensures
        g.nodes_view().len() <= usize::MAX,
        g.edges_view().len() <= usize::MAX,
{
    g.lemma_table_bounds();
}

/// The property key under which a node records its file.
fn path_key() -> (r: String)
    ensures
        r@ == "path"@,
{
    "path".to_owned()
}

/// Index entries that never referenced a purged file's nodes stay
/// consistent after the purge: the purge removes exactly the nodes recorded
/// under the path, and the index no longer mentions them.
proof fn lemma_consistency_survives_purge(
    pre: SymbolIndex,
    post: SymbolIndex,
    g_pre: CodeGraph,
    g_post: CodeGraph,
    p: Seq<char>,
)
    requires
        pre.wf(),
        pre.consistent_with(g_pre),
        post.file_bucket(p) is None,
        post.pos_bucket(p) is None,
        forall|q: Seq<char>| q != p ==> #[trigger] post.file_bucket(q) == pre.file_bucket(q),
        forall|q: Seq<char>| q != p ==> #[trigger] post.pos_bucket(q) == pre.pos_bucket(q),
        forall|nm: Seq<char>|
            #[trigger] post.name_bucket(nm) == crate::index::spec_purge(
                pre.name_bucket(nm),
                crate::index::bucket_or_empty(pre.files_table(), p),
            ),
        forall|t: Seq<char>|
            #[trigger] post.type_bucket(t) == crate::index::spec_purge(
                pre.type_bucket(t),
                crate::index::bucket_or_empty(pre.files_table(), p),
            ),
        forall|id: NodeId|
            #[trigger] g_post.has_node(id) <==> (g_pre.has_node(id) && !path_node(g_pre, id, p)),
        forall|id: NodeId|
            g_post.has_node(id) ==> #[trigger] g_post.node_at(id) == g_pre.node_at(id),
    ensures
        post.consistent_with(g_post),
{
    broadcast use vstd::seq_lib::group_filter_ensures;

    let removed = crate::index::bucket_or_empty(pre.files_table(), p);
    assert forall|q: Seq<char>|
        ((#[trigger] post.file_bucket(q)) matches Some(ids) ==> forall|k: int|
            0 <= k < ids.len() ==> crate::index::admitted(g_post, q, #[trigger] ids[k])) by {
        if post.file_bucket(q) is Some {
            assert(q != p);
            let ids = post.file_bucket(q).unwrap();
            assert(pre.file_bucket(q) == Some(ids));
            assert forall|k: int| 0 <= k < ids.len() implies crate::index::admitted(
                g_post,
                q,
                #[trigger] ids[k],
            ) by {
                assert(crate::index::admitted(g_pre, q, ids[k]));
                assert(!path_node(g_pre, ids[k], p));
            }
        }
    }
    assert forall|nm: Seq<char>|
        ((#[trigger] post.name_bucket(nm)) matches Some(ids) ==> forall|k: int|
            0 <= k < ids.len() ==> crate::index::name_of(g_post, #[trigger] ids[k]) == Some(nm)
                && post.id_filed(g_post, ids[k])) by {
        if post.name_bucket(nm) is Some {
            let ids = post.name_bucket(nm).unwrap();
            let orig_ids = pre.name_bucket(nm).unwrap();
            assert(ids == orig_ids.filter(|id: NodeId| !removed.contains(id)));
            assert forall|k: int| 0 <= k < ids.len() implies crate::index::name_of(
                g_post,
                #[trigger] ids[k],
            ) == Some(nm) && post.id_filed(g_post, ids[k]) by {
                assert(ids.contains(ids[k]));
                orig_ids.lemma_filter_contains_rev(
                    |id: NodeId| !removed.contains(id),
                    ids[k],
                );
                assert(orig_ids.contains(ids[k]));
                assert(!removed.contains(ids[k]));
                let w = choose|w: int| 0 <= w < orig_ids.len() && orig_ids[w] == ids[k];
                assert(crate::index::name_of(g_pre, ids[k]) == Some(nm) && pre.id_filed(
                    g_pre,
                    ids[k],
                ));
                let q = g_pre.node_str_prop(ids[k], "path"@).unwrap();
                assert(pre.file_bucket(q).unwrap().contains(ids[k]));
                assert(q != p) by {
                    if q == p {
                        assert(removed.contains(ids[k]));
                    }
                }
                assert(!path_node(g_pre, ids[k], p));
                assert(g_post.has_node(ids[k]));
                assert(g_post.node_at(ids[k]) == g_pre.node_at(ids[k]));
                assert(post.file_bucket(q) == pre.file_bucket(q));
            }
        }
    }
    assert forall|t: Seq<char>|
        ((#[trigger] post.type_bucket(t)) matches Some(ids) ==> forall|k: int|
            0 <= k < ids.len() ==> g_post.has_node(#[trigger] ids[k]) && crate::index::kind_of(
                g_post,
                ids[k],
            ) == t && post.id_filed(g_post, ids[k])) by {
        if post.type_bucket(t) is Some {
            let ids = post.type_bucket(t).unwrap();
            let orig_ids = pre.type_bucket(t).unwrap();
            assert(ids == orig_ids.filter(|id: NodeId| !removed.contains(id)));
            assert forall|k: int| 0 <= k < ids.len() implies g_post.has_node(#[trigger] ids[k])
                && crate::index::kind_of(g_post, ids[k]) == t && post.id_filed(g_post, ids[k]) by {
                assert(ids.contains(ids[k]));
                orig_ids.lemma_filter_contains_rev(
                    |id: NodeId| !removed.contains(id),
                    ids[k],
                );
                assert(orig_ids.contains(ids[k]));
                assert(!removed.contains(ids[k]));
                let w = choose|w: int| 0 <= w < orig_ids.len() && orig_ids[w] == ids[k];
                assert(g_pre.has_node(ids[k]) && crate::index::kind_of(g_pre, ids[k]) == t
                    && pre.id_filed(g_pre, ids[k]));
                let q = g_pre.node_str_prop(ids[k], "path"@).unwrap();
                assert(pre.file_bucket(q).unwrap().contains(ids[k]));
                assert(q != p) by {
                    if q == p {
                        assert(removed.contains(ids[k]));
                    }
                }
                assert(!path_node(g_pre, ids[k], p));
                assert(g_post.node_at(ids[k]) == g_pre.node_at(ids[k]));
                assert(post.file_bucket(q) == pre.file_bucket(q));
            }
        }
    }
    assert forall|q: Seq<char>|
        ((#[trigger] post.pos_bucket(q)) matches Some(es) ==> forall|k: int|
            0 <= k < es.len() ==> crate::index::admitted(g_post, q, (#[trigger] es[k]).1)
                && crate::index::spec_extract_range(g_post.node_at(es[k].1).properties) == Some(
                es[k].0,
            )) by {
        if post.pos_bucket(q) is Some {
            assert(q != p);
            let es = post.pos_bucket(q).unwrap();
            assert(pre.pos_bucket(q) == Some(es));
            assert forall|k: int| 0 <= k < es.len() implies crate::index::admitted(
                g_post,
                q,
                (#[trigger] es[k]).1,
            ) && crate::index::spec_extract_range(g_post.node_at(es[k].1).properties) == Some(
                es[k].0,
            ) by {
                assert(crate::index::admitted(g_pre, q, es[k].1));
                assert(!path_node(g_pre, es[k].1, p));
                assert(g_post.node_at(es[k].1) == g_pre.node_at(es[k].1));
            }
        }
    }
}

} // verus!
