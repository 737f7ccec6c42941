//! The in-memory property graph of code objects.
//!
//! Nodes are stored in an id-indexed table; an id is never reused, and a
//! deleted slot stays empty. Edges are directed, typed, and live in a table of
//! their own. Deleting a node also deletes its incident edges.

use vstd::prelude::*;

use crate::props::PropertyMap;
use crate::props::PropertyValue;

verus! {

/// Stable identifier of a node.
pub type NodeId = u64;

/// Stable identifier of an edge.
pub type EdgeId = u64;

/// The kind of a code object.
#[derive(Clone, Copy, Debug, PartialEq, Eq, Structural)]
pub enum NodeType {
    Function,
    Class,
    Interface,
    Module,
    Variable,
    Type,
    CodeFile,
    Generic,
}

impl NodeType {
    /// The display name of the kind.
    pub open spec fn spec_kind_name(self) -> Seq<char> {
        match self {
            NodeType::Function => "Function"@,
            NodeType::Class => "Class"@,
            NodeType::Interface => "Interface"@,
            NodeType::Module => "Module"@,
            NodeType::Variable => "Variable"@,
            NodeType::Type => "Type"@,
            NodeType::CodeFile => "CodeFile"@,
            NodeType::Generic => "Generic"@,
        }
    }

    /// The display name of the kind.
    pub fn kind_name(&self) -> (r: &'static str)
        ensures
            r@ == self.spec_kind_name(),
    {
        match self {
            NodeType::Function => "Function",
            NodeType::Class => "Class",
            NodeType::Interface => "Interface",
            NodeType::Module => "Module",
            NodeType::Variable => "Variable",
            NodeType::Type => "Type",
            NodeType::CodeFile => "CodeFile",
            NodeType::Generic => "Generic",
        }
    }
}

/// The kind of a directed relation between two nodes.
#[derive(Clone, Copy, Debug, PartialEq, Eq, Structural)]
pub enum EdgeType {
    Calls,
    References,
    Imports,
    Extends,
    Contains,
    Implements,
}

/// Direction of traversal from a node.
#[derive(Clone, Copy, Debug, PartialEq, Eq, Structural)]
pub enum Direction {
    Outgoing,
    Incoming,
    Both,
}

/// Failure modes of graph operations.
#[derive(Clone, Copy, Debug, PartialEq, Eq, Structural)]
pub enum GraphError {
    NotFound,
    Corrupt,
}

/// A node: a kind together with a property bag.
pub struct Node {
    pub node_type: NodeType,
    pub properties: PropertyMap,
}

/// A directed, typed edge.
#[derive(Clone, Copy, Debug, PartialEq, Eq, Structural)]
pub struct Edge {
    pub source_id: NodeId,
    pub target_id: NodeId,
    pub edge_type: EdgeType,
}

/// Whether a node slot matches one property filter.
pub open spec fn slot_matches(slot: Option<Node>, key: Seq<char>, value: PropertyValue) -> bool {
    match slot {
        Some(node) => match node.properties.spec_get(key) {
            Some(v) => v.same_value(value),
            None => false,
        },
        None => false,
    }
}

/// Whether a node slot matches every filter of a list.
pub open spec fn slot_matches_all(slot: Option<Node>, filters: Seq<(String, PropertyValue)>) -> bool {
    slot is Some && forall|i: int|
        0 <= i < filters.len() ==> slot_matches(slot, (#[trigger] filters[i]).0@, filters[i].1)
}

/// Ids below `n` whose slot matches every filter, ascending.
pub open spec fn ids_matching_upto(
    nodes: Seq<Option<Node>>,
    filters: Seq<(String, PropertyValue)>,
    n: int,
) -> Seq<NodeId>
    decreases n,
{
    if n <= 0 {
        Seq::empty()
    } else {
        let pre = ids_matching_upto(nodes, filters, n - 1);
        if slot_matches_all(nodes[n - 1], filters) {
            pre.push((n - 1) as NodeId)
        } else {
            pre
        }
    }
}

/// Whether an edge slot is incident to `id`.
pub open spec fn edge_touches(slot: Option<Edge>, id: NodeId) -> bool {
    match slot {
        Some(e) => e.source_id == id || e.target_id == id,
        None => false,
    }
}

/// Targets of live edges below `n` whose source is `id`, in edge order.
pub open spec fn out_neighbors_upto(edges: Seq<Option<Edge>>, id: NodeId, n: int) -> Seq<NodeId>
    decreases n,
{
    if n <= 0 {
        Seq::empty()
    } else {
        let pre = out_neighbors_upto(edges, id, n - 1);
        match edges[n - 1] {
            Some(e) => if e.source_id == id {
                pre.push(e.target_id)
            } else {
                pre
            },
            None => pre,
        }
    }
}

/// Sources of live edges below `n` whose target is `id`, in edge order.
pub open spec fn in_neighbors_upto(edges: Seq<Option<Edge>>, id: NodeId, n: int) -> Seq<NodeId>
    decreases n,
{
    if n <= 0 {
        Seq::empty()
    } else {
        let pre = in_neighbors_upto(edges, id, n - 1);
        match edges[n - 1] {
            Some(e) => if e.target_id == id {
                pre.push(e.source_id)
            } else {
                pre
            },
            None => pre,
        }
    }
}

/// Ids of live edges below `n` from `src` to `dst`, ascending.
pub open spec fn edges_between_upto(
    edges: Seq<Option<Edge>>,
    src: NodeId,
    dst: NodeId,
    n: int,
) -> Seq<EdgeId>
    decreases n,
{
    if n <= 0 {
        Seq::empty()
    } else {
        let pre = edges_between_upto(edges, src, dst, n - 1);
        match edges[n - 1] {
            Some(e) => if e.source_id == src && e.target_id == dst {
                pre.push((n - 1) as EdgeId)
            } else {
                pre
            },
            None => pre,
        }
    }
}

/// What a property query selects: ids below the bound, strictly ascending,
/// exactly those whose slot matches every filter.
pub proof fn lemma_ids_matching_props(
    nodes: Seq<Option<Node>>,
    filters: Seq<(String, PropertyValue)>,
    n: int,
)
    requires
        n <= nodes.len(),
        n <= u64::MAX,
    ensures
        forall|k: int|
            0 <= k < ids_matching_upto(nodes, filters, n).len() ==> (
            #[trigger] ids_matching_upto(nodes, filters, n)[k]) < n,
        forall|k1: int, k2: int|
            0 <= k1 < k2 < ids_matching_upto(nodes, filters, n).len() ==> (
            #[trigger] ids_matching_upto(nodes, filters, n)[k1]) < (
            #[trigger] ids_matching_upto(nodes, filters, n)[k2]),
        forall|k: int|
            0 <= k < ids_matching_upto(nodes, filters, n).len() ==> slot_matches_all(
                nodes[ids_matching_upto(nodes, filters, n)[k] as int],
                filters,
            ),
        forall|id: NodeId|
            0 <= id < n && slot_matches_all(nodes[id as int], filters)
                ==> ids_matching_upto(nodes, filters, n).contains(id),
    decreases n,
{
    if n > 0 {
        lemma_ids_matching_props(nodes, filters, n - 1);
        let pre = ids_matching_upto(nodes, filters, n - 1);
        let cur = ids_matching_upto(nodes, filters, n);
        assert(forall|k: int| 0 <= k < pre.len() ==> cur[k] == pre[k]);
        assert forall|k: int| 0 <= k < cur.len() implies (#[trigger] cur[k]) < n
            && slot_matches_all(nodes[cur[k] as int], filters) by {
            if k < pre.len() {
                assert(cur[k] == pre[k]);
                assert(pre[k] < n - 1);
                assert(slot_matches_all(nodes[pre[k] as int], filters));
            } else {
                assert(cur[k] == (n - 1) as NodeId);
            }
        }
        assert forall|k1: int, k2: int| 0 <= k1 < k2 < cur.len() implies (#[trigger] cur[k1]) < (
        #[trigger] cur[k2]) by {
            if k2 < pre.len() {
                assert(pre[k1] < pre[k2]);
            } else {
                assert(cur[k1] == pre[k1] && pre[k1] < n - 1);
                assert(cur[k2] == (n - 1) as NodeId);
            }
        }
        assert forall|id: NodeId|
            0 <= id < n && slot_matches_all(nodes[id as int], filters) implies cur.contains(id) by {
            if id < n - 1 {
                assert(pre.contains(id));
                let w = choose|w: int| 0 <= w < pre.len() && pre[w] == id;
                assert(cur[w] == id);
            } else {
                assert(cur[cur.len() - 1] == id);
            }
        }
    }
}

/// In a closed graph, no prefix of the edge table yields a neighbor for a
/// dead node.
proof fn lemma_neighbors_upto_dead(g: CodeGraph, id: NodeId, n: int)
    requires
        g.edges_closed(),
        !g.has_node(id),
        n <= g.edges_view().len(),
    ensures
        in_neighbors_upto(g.edges_view(), id, n).len() == 0,
        out_neighbors_upto(g.edges_view(), id, n).len() == 0,
    decreases n,
{
    if n > 0 {
        lemma_neighbors_upto_dead(g, id, n - 1);
        match g.edges_view()[n - 1] {
            Some(e) => {
                assert(g.has_node(e.source_id) && g.has_node(e.target_id));
            },
            None => {},
        }
    }
}

/// The property graph.
pub struct CodeGraph {
    nodes: Vec<Option<Node>>,
    edges: Vec<Option<Edge>>,
}

impl CodeGraph {
    /// The node table: one slot per ever-allocated id.
    pub closed spec fn nodes_view(self) -> Seq<Option<Node>> {
        self.nodes@
    }

    /// The edge table: one slot per ever-allocated id.
    pub closed spec fn edges_view(self) -> Seq<Option<Edge>> {
        self.edges@
    }

    /// Whether `id` names a live node.
    pub open spec fn has_node(self, id: NodeId) -> bool {
        id < self.nodes_view().len() && self.nodes_view()[id as int] is Some
    }

    /// The live node named `id`.
    pub open spec fn node_at(self, id: NodeId) -> Node
        recommends
            self.has_node(id),
    {
        self.nodes_view()[id as int].unwrap()
    }

    /// Whether `id` names a live edge.
    pub open spec fn has_edge(self, id: EdgeId) -> bool {
        id < self.edges_view().len() && self.edges_view()[id as int] is Some
    }

    /// The live edge named `id`.
    pub open spec fn edge_at(self, id: EdgeId) -> Edge
        recommends
            self.has_edge(id),
    {
        self.edges_view()[id as int].unwrap()
    }

    /// The string property `key` of node `id`.
    pub open spec fn node_str_prop(self, id: NodeId, key: Seq<char>) -> Option<Seq<char>> {
        if self.has_node(id) {
            self.node_at(id).properties.spec_get_str(key)
        } else {
            None
        }
    }

    /// There are no nodes and no edges.
    pub open spec fn is_empty_graph(self) -> bool {
        self.nodes_view().len() == 0 && self.edges_view().len() == 0
    }

    /// Every live edge joins two live nodes. Edges are only admitted
    /// between live nodes, and deleting a node deletes its incident edges,
    /// so the graph never holds a dangling edge.
    pub open spec fn edges_closed(self) -> bool {
        forall|j: int|
            0 <= j < self.edges_view().len() ==> ((#[trigger] self.edges_view()[j]) matches Some(e)
                ==> self.has_node(e.source_id) && self.has_node(e.target_id))
    }

    /// A node that is not live has no neighbors in a closed graph.
    pub proof fn lemma_dead_node_isolated(self, id: NodeId)
        requires
            self.edges_closed(),
            !self.has_node(id),
        ensures
            self.spec_in_neighbors(id).len() == 0,
            self.spec_out_neighbors(id).len() == 0,
    {
        lemma_neighbors_upto_dead(self, id, self.edges_view().len() as int);
    }

    /// Targets of live edges whose source is `id`.
    pub open spec fn spec_out_neighbors(self, id: NodeId) -> Seq<NodeId> {
        out_neighbors_upto(self.edges_view(), id, self.edges_view().len() as int)
    }

    /// Sources of live edges whose target is `id`.
    pub open spec fn spec_in_neighbors(self, id: NodeId) -> Seq<NodeId> {
        in_neighbors_upto(self.edges_view(), id, self.edges_view().len() as int)
    }

    /// Ids of live edges from `src` to `dst`.
    pub open spec fn spec_edges_between(self, src: NodeId, dst: NodeId) -> Seq<EdgeId> {
        edges_between_upto(self.edges_view(), src, dst, self.edges_view().len() as int)
    }

    /// The tables fit in memory.
    pub proof fn lemma_table_bounds(self)
        ensures
            self.nodes_view().len() <= usize::MAX,
            self.edges_view().len() <= usize::MAX,
    {
        broadcast use vstd::std_specs::vec::axiom_spec_len;

        assert(vstd::std_specs::vec::spec_vec_len(&self.nodes) == self.nodes@.len());
        assert(vstd::std_specs::vec::spec_vec_len(&self.edges) == self.edges@.len());
    }

    /// An empty graph.
    pub fn in_memory() -> (g: CodeGraph)
        ensures
            g.is_empty_graph(),
    {
        CodeGraph { nodes: Vec::new(), edges: Vec::new() }
    }

    /// Drop every node and edge.
    pub fn reset(&mut self)
        ensures
            final(self).is_empty_graph(),
    {
        self.nodes.clear();
        self.edges.clear();
    }

    /// Insert a node and return its fresh id.
    pub fn add_node(&mut self, node: Node) -> (id: NodeId)
        ensures
            id == old(self).nodes_view().len(),
            final(self).nodes_view() == old(self).nodes_view().push(Some(node)),
            final(self).edges_view() == old(self).edges_view(),
            final(self).has_node(id),
            final(self).node_at(id) == node,
    {
        let id = self.nodes.len() as u64;
        self.nodes.push(Some(node));
        id
    }

    /// Read a node.
    pub fn get_node(&self, id: NodeId) -> (r: Result<&Node, GraphError>)
        ensures
            match r {
                Ok(node) => self.has_node(id) && *node == self.node_at(id),
                Err(e) => !self.has_node(id) && e == GraphError::NotFound,
            },
    {
        if id < self.nodes.len() as u64 {
            match &self.nodes[id as usize] {
                Some(node) => Ok(node),
                None => Err(GraphError::NotFound),
            }
        } else {
            Err(GraphError::NotFound)
        }
    }

    /// Delete a node and every edge incident to it.
    pub fn delete_node(&mut self, id: NodeId) -> (r: Result<(), GraphError>)
        ensures
            r is Ok <==> old(self).has_node(id),
            r is Err ==> *final(self) == *old(self),
            r is Ok ==> {
                &&& final(self).nodes_view() == old(self).nodes_view().update(id as int, None::<Node>)
                &&& final(self).edges_view().len() == old(self).edges_view().len()
                &&& forall|j: int|
                    0 <= j < old(self).edges_view().len() ==> final(self).edges_view()[j] == (
                    if edge_touches(#[trigger] old(self).edges_view()[j], id) {
                        None::<Edge>
                    } else {
                        old(self).edges_view()[j]
                    })
            },
    {
        if id >= self.nodes.len() as u64 {
            return Err(GraphError::NotFound);
        }
        let idx = id as usize;
        if self.nodes[idx].is_none() {
            return Err(GraphError::NotFound);
        }
        self.nodes[idx] = None;
        let ghost old_edges = self.edges@;
        let n = self.edges.len();
        let mut j: usize = 0;
        while j < n
            invariant
                0 <= j <= n,
                n == self.edges@.len(),
                old_edges.len() == n,
                self.nodes@ == old(self).nodes@.update(id as int, None::<Node>),
                forall|k: int|
                    j <= k < n ==> self.edges@[k] == old_edges[k],
                forall|k: int|
                    0 <= k < j ==> self.edges@[k] == (if edge_touches(#[trigger] old_edges[k], id) {
                        None::<Edge>
                    } else {
                        old_edges[k]
                    }),
            decreases n - j,
        {
            let touches = match &self.edges[j] {
                Some(e) => e.source_id == id || e.target_id == id,
                None => false,
            };
            if touches {
                self.edges[j] = None;
            }
            j += 1;
        }
        Ok(())
    }

    /// Insert a directed edge between two live nodes and return its fresh id.
    pub fn add_edge(&mut self, source_id: NodeId, target_id: NodeId, edge_type: EdgeType) -> (r:
        Result<EdgeId, GraphError>)
        ensures
            r is Ok <==> old(self).has_node(source_id) && old(self).has_node(target_id),
            r is Err ==> *final(self) == *old(self),
            r is Ok ==> {
                &&& r.unwrap() == old(self).edges_view().len()
                &&& final(self).edges_view() == old(self).edges_view().push(
                    Some(Edge { source_id, target_id, edge_type }),
                )
                &&& final(self).nodes_view() == old(self).nodes_view()
            },
    {
        let src_ok = id_is_live(&self.nodes, source_id);
        let dst_ok = id_is_live(&self.nodes, target_id);
        if !src_ok || !dst_ok {
            return Err(GraphError::NotFound);
        }
        let id = self.edges.len() as u64;
        self.edges.push(Some(Edge { source_id, target_id, edge_type }));
        Ok(id)
    }

    /// Read an edge.
    pub fn get_edge(&self, id: EdgeId) -> (r: Result<&Edge, GraphError>)
        ensures
            match r {
                Ok(edge) => self.has_edge(id) && *edge == self.edge_at(id),
                Err(e) => !self.has_edge(id) && e == GraphError::NotFound,
            },
    {
        if id < self.edges.len() as u64 {
            match &self.edges[id as usize] {
                Some(edge) => Ok(edge),
                None => Err(GraphError::NotFound),
            }
        } else {
            Err(GraphError::NotFound)
        }
    }

    /// Delete an edge.
    pub fn delete_edge(&mut self, id: EdgeId) -> (r: Result<(), GraphError>)
        ensures
            r is Ok <==> old(self).has_edge(id),
            r is Err ==> *final(self) == *old(self),
            r is Ok ==> {
                &&& final(self).edges_view() == old(self).edges_view().update(id as int, None::<Edge>)
                &&& final(self).nodes_view() == old(self).nodes_view()
            },
    {
        if id >= self.edges.len() as u64 {
            return Err(GraphError::NotFound);
        }
        let idx = id as usize;
        if self.edges[idx].is_none() {
            return Err(GraphError::NotFound);
        }
        self.edges[idx] = None;
        Ok(())
    }

    /// Neighbor ids of a live node, in edge order. For `Both`, the outgoing
    /// neighbors come first, then the incoming ones.
    pub fn get_neighbors(&self, id: NodeId, direction: Direction) -> (r: Result<
        Vec<NodeId>,
        GraphError,
    >)
        ensures
            r is Ok <==> self.has_node(id),
            r is Err ==> r == Result::<Vec<NodeId>, GraphError>::Err(GraphError::NotFound),
            r is Ok ==> r.unwrap()@ == match direction {
                Direction::Outgoing => self.spec_out_neighbors(id),
                Direction::Incoming => self.spec_in_neighbors(id),
                Direction::Both => self.spec_out_neighbors(id) + self.spec_in_neighbors(id),
            },
    {
        if !id_is_live(&self.nodes, id) {
            return Err(GraphError::NotFound);
        }
        let r = match direction {
            Direction::Outgoing => self.collect_out_neighbors(id),
            Direction::Incoming => self.collect_in_neighbors(id),
            Direction::Both => {
                let mut out = self.collect_out_neighbors(id);
                let mut inc = self.collect_in_neighbors(id);
                out.append(&mut inc);
                out
            },
        };
        Ok(r)
    }

    /// Targets of live edges whose source is `id`.
    fn collect_out_neighbors(&self, id: NodeId) -> (r: Vec<NodeId>)
        ensures
            r@ == self.spec_out_neighbors(id),
    {
        let n = self.edges.len();
        let mut acc: Vec<NodeId> = Vec::new();
        let mut j: usize = 0;
        while j < n
            invariant
                0 <= j <= n,
                n == self.edges@.len(),
                acc@ == out_neighbors_upto(self.edges@, id, j as int),
            decreases n - j,
        {
            match &self.edges[j] {
                Some(e) => {
                    if e.source_id == id {
                        acc.push(e.target_id);
                    }
                },
                None => {},
            }
            proof {
                assert(acc@ == out_neighbors_upto(self.edges@, id, j as int + 1));
            }
            j += 1;
        }
        acc
    }

    /// Sources of live edges whose target is `id`.
    fn collect_in_neighbors(&self, id: NodeId) -> (r: Vec<NodeId>)
        ensures
            r@ == self.spec_in_neighbors(id),
    {
        let n = self.edges.len();
        let mut acc: Vec<NodeId> = Vec::new();
        let mut j: usize = 0;
        while j < n
            invariant
                0 <= j <= n,
                n == self.edges@.len(),
                acc@ == in_neighbors_upto(self.edges@, id, j as int),
            decreases n - j,
        {
            match &self.edges[j] {
                Some(e) => {
                    if e.target_id == id {
                        acc.push(e.source_id);
                    }
                },
                None => {},
            }
            proof {
                assert(acc@ == in_neighbors_upto(self.edges@, id, j as int + 1));
            }
            j += 1;
        }
        acc
    }

    /// Ids of live edges from `src` to `dst`, ascending.
    pub fn get_edges_between(&self, src: NodeId, dst: NodeId) -> (r: Result<
        Vec<EdgeId>,
        GraphError,
    >)
        ensures
            r is Ok,
            r.unwrap()@ == self.spec_edges_between(src, dst),
    {
        let n = self.edges.len();
        let mut acc: Vec<EdgeId> = Vec::new();
        let mut j: usize = 0;
        while j < n
            invariant
                0 <= j <= n,
                n == self.edges@.len(),
                acc@ == edges_between_upto(self.edges@, src, dst, j as int),
            decreases n - j,
        {
            match &self.edges[j] {
                Some(e) => {
                    if e.source_id == src && e.target_id == dst {
                        acc.push(j as u64);
                    }
                },
                None => {},
            }
            proof {
                assert(acc@ == edges_between_upto(self.edges@, src, dst, j as int + 1));
            }
            j += 1;
        }
        Ok(acc)
    }

    /// Start a property query.
    pub fn query(&self) -> (q: NodeQuery<'_>)
        ensures
            q.graph_view() == *self,
            q.filters_view().len() == 0,
    {
        NodeQuery { graph: self, filters: Vec::new() }
    }
}

/// Whether `id` names a live slot of the node table.
fn id_is_live(nodes: &Vec<Option<Node>>, id: NodeId) -> (r: bool)
    ensures
        r == (id < nodes@.len() && nodes@[id as int] is Some),
{
    id < nodes.len() as u64 && nodes[id as usize].is_some()
}

/// A property-equality query over the node table.
pub struct NodeQuery<'a> {
    graph: &'a CodeGraph,
    filters: Vec<(String, PropertyValue)>,
}

impl<'a> NodeQuery<'a> {
    /// The graph being queried.
    pub closed spec fn graph_view(self) -> CodeGraph {
        *self.graph
    }

    /// The filters collected so far.
    pub closed spec fn filters_view(self) -> Seq<(String, PropertyValue)> {
        self.filters@
    }

    /// Ids the query selects: live nodes matching every filter, ascending.
    pub open spec fn spec_results(self) -> Seq<NodeId> {
        ids_matching_upto(
            self.graph_view().nodes_view(),
            self.filters_view(),
            self.graph_view().nodes_view().len() as int,
        )
    }

    /// Add an equality filter on one property.
    pub fn property(self, key: String, value: PropertyValue) -> (q: NodeQuery<'a>)
        ensures
            q.graph_view() == self.graph_view(),
            q.filters_view() == self.filters_view().push((key, value)),
    {
        let mut filters = self.filters;
        filters.push((key, value));
        NodeQuery { graph: self.graph, filters }
    }

    /// Run the query.
    pub fn execute(self) -> (r: Result<Vec<NodeId>, GraphError>)
        ensures
            r is Ok,
            r.unwrap()@ == self.spec_results(),
    {
        let n = self.graph.nodes.len();
        let mut acc: Vec<NodeId> = Vec::new();
        let mut i: usize = 0;
        while i < n
            invariant
                0 <= i <= n,
                n == self.graph.nodes@.len(),
                acc@ == ids_matching_upto(self.graph.nodes@, self.filters@, i as int),
            decreases n - i,
        {
            let matches_here = match &self.graph.nodes[i] {
                Some(node) => filters_hold(node, &self.filters),
                None => false,
            };
            proof {
                assert(matches_here == slot_matches_all(self.graph.nodes@[i as int], self.filters@));
            }
            if matches_here {
                acc.push(i as u64);
            }
            proof {
                assert(acc@ == ids_matching_upto(self.graph.nodes@, self.filters@, i as int + 1));
            }
            i += 1;
        }
        Ok(acc)
    }
}

/// Whether a node satisfies every filter of a list.
fn filters_hold(node: &Node, filters: &Vec<(String, PropertyValue)>) -> (r: bool)
    ensures
        r == slot_matches_all(Some(*node), filters@),
{
    let n = filters.len();
    let mut i: usize = 0;
    while i < n
        invariant
            0 <= i <= n,
            n == filters@.len(),
            forall|j: int|
                0 <= j < i ==> slot_matches(Some(*node), (#[trigger] filters@[j]).0@, filters@[j].1),
        decreases n - i,
    {
        let ok = match node.properties.get(filters[i].0.as_str()) {
            Some(v) => v.value_eq(&filters[i].1),
            None => false,
        };
        if !ok {
            proof {
                assert(!slot_matches(Some(*node), filters@[i as int].0@, filters@[i as int].1));
            }
            return false;
        }
        i += 1;
    }
    true
}

} // verus!
