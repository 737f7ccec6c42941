//! Query caching for expensive lookups.
//!
//! Five sub-caches: definition and reference lookups live in concurrent
//! hash maps and grow without bound; call hierarchies, dependency graphs,
//! and AI contexts live in least-recently-used caches with a fixed
//! capacity. The maps come from the `dashmap` and `lru` crates; every call
//! into them goes through a trusted wrapper whose contract speaks of the
//! cache's contents as a map.

use vstd::prelude::*;

use std::collections::hash_map::RandomState;

use crate::graph::NodeId;
use crate::protocol::Location;
use crate::protocol::Range;

verus! {

/// Cached call hierarchy data.
#[derive(Clone, Debug)]
pub struct CallHierarchyCache {
    pub incoming: Vec<(NodeId, Vec<Range>)>,
    pub outgoing: Vec<(NodeId, Vec<Range>)>,
}

/// Cached dependency graph data.
#[derive(Clone, Debug)]
pub struct DependencyGraphCache {
    pub nodes: Vec<NodeId>,
    pub edges: Vec<(NodeId, NodeId, String)>,
}

/// Cached AI context data: the primary source text and the related symbols
/// with their relevance in hundredths.
#[derive(Clone, Debug)]
pub struct AIContextCache {
    pub primary_code: String,
    pub related_symbols: Vec<(NodeId, String, u32)>,
}

#[verifier::external_type_specification]
#[verifier::external_body]
#[verifier::reject_recursive_types(K)]
#[verifier::reject_recursive_types(V)]
#[verifier::reject_recursive_types(S)]
pub struct ExLruCache<K, V, S>(lru::LruCache<K, V, S>);

#[verifier::external_type_specification]
#[verifier::external_body]
#[verifier::reject_recursive_types(K)]
#[verifier::reject_recursive_types(V)]
#[verifier::reject_recursive_types(S)]
pub struct ExDashMap<K, V, S>(dashmap::DashMap<K, V, S>);

/// What the call-hierarchy cache holds.
pub uninterp spec fn ch_contents(c: lru::LruCache<NodeId, CallHierarchyCache, RandomState>) -> Map<
    NodeId,
    CallHierarchyCache,
>;

/// The capacity the call-hierarchy cache was made with.
pub uninterp spec fn ch_cap(c: lru::LruCache<NodeId, CallHierarchyCache, RandomState>) -> nat;

/// What the dependency-graph cache holds, keyed by path text and depth.
pub uninterp spec fn dg_contents(c: lru::LruCache<(String, usize), DependencyGraphCache, RandomState>) -> Map<
    (Seq<char>, nat),
    DependencyGraphCache,
>;

/// The capacity the dependency-graph cache was made with.
pub uninterp spec fn dg_cap(c: lru::LruCache<(String, usize), DependencyGraphCache, RandomState>) -> nat;

/// What the AI-context cache holds, keyed by node id and context type.
pub uninterp spec fn ai_contents(c: lru::LruCache<(NodeId, String), AIContextCache, RandomState>) -> Map<
    (NodeId, Seq<char>),
    AIContextCache,
>;

/// The capacity the AI-context cache was made with.
pub uninterp spec fn ai_cap(c: lru::LruCache<(NodeId, String), AIContextCache, RandomState>) -> nat;

/// What the definition cache holds, keyed by path text and position.
pub uninterp spec fn def_contents(c: dashmap::DashMap<(String, u32, u32), NodeId>) -> Map<
    (Seq<char>, u32, u32),
    NodeId,
>;

/// What the references cache holds.
pub uninterp spec fn ref_contents(c: dashmap::DashMap<NodeId, Vec<Location>>) -> Map<
    NodeId,
    Vec<Location>,
>;

/// An empty call-hierarchy cache view.
pub open spec fn empty_ch() -> Map<NodeId, CallHierarchyCache> {
    Map::empty()
}

/// An empty dependency-graph cache view.
pub open spec fn empty_dg() -> Map<(Seq<char>, nat), DependencyGraphCache> {
    Map::empty()
}

/// An empty AI-context cache view.
pub open spec fn empty_ai() -> Map<(NodeId, Seq<char>), AIContextCache> {
    Map::empty()
}

/// An empty definition cache view.
pub open spec fn empty_defs() -> Map<(Seq<char>, u32, u32), NodeId> {
    Map::empty()
}

/// An empty references cache view.
pub open spec fn empty_refs() -> Map<NodeId, Vec<Location>> {
    Map::empty()
}

// ==========================================
// Trusted wrappers: lru
// ==========================================

/// Relies on lru::LruCache::new: a fresh, empty cache with the given
/// capacity.
#[verifier::external_body]
fn ch_new(cap: usize) -> (r: lru::LruCache<NodeId, CallHierarchyCache, RandomState>)
    requires
        cap >= 1,
    ensures
        ch_contents(r) == empty_ch(),
        ch_cap(r) == cap,
{
    lru::LruCache::with_hasher(std::num::NonZeroUsize::new(cap).unwrap(), RandomState::new())
}

/// Relies on lru::LruCache::put: the entry is stored; any other surviving
/// entry was already present; at most `cap` entries remain.
#[verifier::external_body]
fn ch_put(c: &mut lru::LruCache<NodeId, CallHierarchyCache, RandomState>, k: NodeId, v: CallHierarchyCache)
    ensures
        ch_cap(*final(c)) == ch_cap(*old(c)),
        ch_contents(*final(c)).contains_pair(k, v),
        forall|k2: NodeId, v2: CallHierarchyCache|
            k2 != k && #[trigger] ch_contents(*final(c)).contains_pair(k2, v2) ==> ch_contents(
                *old(c),
            ).contains_pair(k2, v2),
        ch_contents(*final(c)).dom().finite(),
        ch_contents(*final(c)).dom().len() <= ch_cap(*old(c)),
{
    c.put(k, v);
}

/// Relies on lru::LruCache::get (and the derived clone of the cached
/// value): the stored value for the key, if present; only recency changes.
#[verifier::external_body]
fn ch_get(c: &mut lru::LruCache<NodeId, CallHierarchyCache, RandomState>, k: NodeId) -> (r: Option<
    CallHierarchyCache,
>)
    ensures
        ch_contents(*final(c)) == ch_contents(*old(c)),
        ch_cap(*final(c)) == ch_cap(*old(c)),
        r == (if ch_contents(*old(c)).dom().contains(k) {
            Some(ch_contents(*old(c))[k])
        } else {
            None::<CallHierarchyCache>
        }),
{
    c.get(&k).cloned()
}

/// Relies on lru::LruCache::clear: every entry is dropped.
#[verifier::external_body]
fn ch_clear(c: &mut lru::LruCache<NodeId, CallHierarchyCache, RandomState>)
    ensures
        ch_contents(*final(c)) == empty_ch(),
        ch_cap(*final(c)) == ch_cap(*old(c)),
{
    c.clear();
}

/// Relies on lru::LruCache::len: the number of stored entries.
#[verifier::external_body]
fn ch_len(c: &lru::LruCache<NodeId, CallHierarchyCache, RandomState>) -> (r: usize)
    requires
        ch_contents(*c).dom().finite(),
    ensures
        r == ch_contents(*c).dom().len(),
{
    c.len()
}

/// Relies on lru::LruCache::new: a fresh, empty cache with the given
/// capacity.
#[verifier::external_body]
fn dg_new(cap: usize) -> (r: lru::LruCache<(String, usize), DependencyGraphCache, RandomState>)
    requires
        cap >= 1,
    ensures
        dg_contents(r) == empty_dg(),
        dg_cap(r) == cap,
{
    lru::LruCache::with_hasher(std::num::NonZeroUsize::new(cap).unwrap(), RandomState::new())
}

/// Relies on lru::LruCache::put: the entry is stored; any other surviving
/// entry was already present; at most `cap` entries remain.
#[verifier::external_body]
fn dg_put(
    c: &mut lru::LruCache<(String, usize), DependencyGraphCache, RandomState>,
    path: String,
    depth: usize,
    v: DependencyGraphCache,
)
    ensures
        dg_cap(*final(c)) == dg_cap(*old(c)),
        dg_contents(*final(c)).contains_pair((path@, depth as nat), v),
        forall|k2: (Seq<char>, nat), v2: DependencyGraphCache|
            k2 != (path@, depth as nat) && #[trigger] dg_contents(*final(c)).contains_pair(k2, v2)
                ==> dg_contents(*old(c)).contains_pair(k2, v2),
        dg_contents(*final(c)).dom().finite(),
        dg_contents(*final(c)).dom().len() <= dg_cap(*old(c)),
{
    c.put((path, depth), v);
}

/// Relies on lru::LruCache::get (and the derived clone of the cached
/// value): the stored value for the key, if present; only recency changes.
#[verifier::external_body]
fn dg_get(
    c: &mut lru::LruCache<(String, usize), DependencyGraphCache, RandomState>,
    path: &str,
    depth: usize,
) -> (r: Option<DependencyGraphCache>)
    ensures
        dg_contents(*final(c)) == dg_contents(*old(c)),
        dg_cap(*final(c)) == dg_cap(*old(c)),
        r == (if dg_contents(*old(c)).dom().contains((path@, depth as nat)) {
            Some(dg_contents(*old(c))[(path@, depth as nat)])
        } else {
            None::<DependencyGraphCache>
        }),
{
    c.get(&(path.to_owned(), depth)).cloned()
}

/// Relies on lru::LruCache::clear: every entry is dropped.
#[verifier::external_body]
fn dg_clear(c: &mut lru::LruCache<(String, usize), DependencyGraphCache, RandomState>)
    ensures
        dg_contents(*final(c)) == empty_dg(),
        dg_cap(*final(c)) == dg_cap(*old(c)),
{
    c.clear();
}

/// Relies on lru::LruCache::len: the number of stored entries.
#[verifier::external_body]
fn dg_len(c: &lru::LruCache<(String, usize), DependencyGraphCache, RandomState>) -> (r: usize)
    requires
        dg_contents(*c).dom().finite(),
    ensures
        r == dg_contents(*c).dom().len(),
{
    c.len()
}

/// Relies on lru::LruCache::new: a fresh, empty cache with the given
/// capacity.
#[verifier::external_body]
fn ai_new(cap: usize) -> (r: lru::LruCache<(NodeId, String), AIContextCache, RandomState>)
    requires
        cap >= 1,
    ensures
        ai_contents(r) == empty_ai(),
        ai_cap(r) == cap,
{
    lru::LruCache::with_hasher(std::num::NonZeroUsize::new(cap).unwrap(), RandomState::new())
}

/// Relies on lru::LruCache::put: the entry is stored; any other surviving
/// entry was already present; at most `cap` entries remain.
#[verifier::external_body]
fn ai_put(
    c: &mut lru::LruCache<(NodeId, String), AIContextCache, RandomState>,
    node_id: NodeId,
    context_type: String,
    v: AIContextCache,
)
    ensures
        ai_cap(*final(c)) == ai_cap(*old(c)),
        ai_contents(*final(c)).contains_pair((node_id, context_type@), v),
        forall|k2: (NodeId, Seq<char>), v2: AIContextCache|
            k2 != (node_id, context_type@) && #[trigger] ai_contents(*final(c)).contains_pair(
                k2,
                v2,
            ) ==> ai_contents(*old(c)).contains_pair(k2, v2),
        ai_contents(*final(c)).dom().finite(),
        ai_contents(*final(c)).dom().len() <= ai_cap(*old(c)),
{
    c.put((node_id, context_type), v);
}

/// Relies on lru::LruCache::get (and the derived clone of the cached
/// value): the stored value for the key, if present; only recency changes.
#[verifier::external_body]
fn ai_get(
    c: &mut lru::LruCache<(NodeId, String), AIContextCache, RandomState>,
    node_id: NodeId,
    context_type: &str,
) -> (r: Option<AIContextCache>)
    ensures
        ai_contents(*final(c)) == ai_contents(*old(c)),
        ai_cap(*final(c)) == ai_cap(*old(c)),
        r == (if ai_contents(*old(c)).dom().contains((node_id, context_type@)) {
            Some(ai_contents(*old(c))[(node_id, context_type@)])
        } else {
            None::<AIContextCache>
        }),
{
    c.get(&(node_id, context_type.to_owned())).cloned()
}

/// Relies on lru::LruCache::clear: every entry is dropped.
#[verifier::external_body]
fn ai_clear(c: &mut lru::LruCache<(NodeId, String), AIContextCache, RandomState>)
    ensures
        ai_contents(*final(c)) == empty_ai(),
        ai_cap(*final(c)) == ai_cap(*old(c)),
{
    c.clear();
}

/// Relies on lru::LruCache::len: the number of stored entries.
#[verifier::external_body]
fn ai_len(c: &lru::LruCache<(NodeId, String), AIContextCache, RandomState>) -> (r: usize)
    requires
        ai_contents(*c).dom().finite(),
    ensures
        r == ai_contents(*c).dom().len(),
{
    c.len()
}

// ==========================================
// Trusted wrappers: dashmap
// ==========================================

/// Relies on dashmap::DashMap::new: a fresh, empty map.
#[verifier::external_body]
fn def_new() -> (r: dashmap::DashMap<(String, u32, u32), NodeId>)
    ensures
        def_contents(r) == empty_defs(),
{
    dashmap::DashMap::new()
}

/// Relies on dashmap::DashMap::insert: the entry is stored and nothing
/// else changes.
#[verifier::external_body]
fn def_insert(
    c: &mut dashmap::DashMap<(String, u32, u32), NodeId>,
    path: String,
    line: u32,
    character: u32,
    v: NodeId,
)
    ensures
        def_contents(*final(c)) == def_contents(*old(c)).insert((path@, line, character), v),
{
    c.insert((path, line, character), v);
}

/// Relies on dashmap::DashMap::get: the stored value for the key, if
/// present.
#[verifier::external_body]
fn def_get(c: &dashmap::DashMap<(String, u32, u32), NodeId>, path: &str, line: u32, character: u32)
    -> (r: Option<NodeId>)
    ensures
        r == (if def_contents(*c).dom().contains((path@, line, character)) {
            Some(def_contents(*c)[(path@, line, character)])
        } else {
            None::<NodeId>
        }),
{
    c.get(&(path.to_owned(), line, character)).map(|v| *v)
}

/// Relies on dashmap::DashMap::retain: exactly the entries whose key
/// satisfies the predicate survive; the closure only consults the key's
/// path component.
#[verifier::external_body]
fn def_retain_other_paths(c: &mut dashmap::DashMap<(String, u32, u32), NodeId>, path: &str)
    ensures
        forall|k: (Seq<char>, u32, u32), v: NodeId|
            #[trigger] def_contents(*final(c)).contains_pair(k, v) <==> (def_contents(
                *old(c),
            ).contains_pair(k, v) && k.0 != path@),
{
    c.retain(|k, _| !crate::props::str_eq(k.0.as_str(), path));
}

/// Relies on dashmap::DashMap::clear: every entry is dropped.
#[verifier::external_body]
fn def_clear(c: &mut dashmap::DashMap<(String, u32, u32), NodeId>)
    ensures
        def_contents(*final(c)) == empty_defs(),
{
    c.clear();
}

/// Relies on dashmap::DashMap::len: the number of stored entries.
#[verifier::external_body]
fn def_len(c: &dashmap::DashMap<(String, u32, u32), NodeId>) -> (r: usize)
    requires
        def_contents(*c).dom().finite(),
    ensures
        r == def_contents(*c).dom().len(),
{
    c.len()
}

/// Relies on dashmap::DashMap::new: a fresh, empty map.
#[verifier::external_body]
fn refs_new() -> (r: dashmap::DashMap<NodeId, Vec<Location>>)
    ensures
        ref_contents(r) == empty_refs(),
{
    dashmap::DashMap::new()
}

/// Relies on dashmap::DashMap::insert: the entry is stored and nothing
/// else changes.
#[verifier::external_body]
fn refs_insert(c: &mut dashmap::DashMap<NodeId, Vec<Location>>, k: NodeId, v: Vec<Location>)
    ensures
        ref_contents(*final(c)) == ref_contents(*old(c)).insert(k, v),
{
    c.insert(k, v);
}

/// Relies on dashmap::DashMap::get (and the derived clone of the stored
/// list): the stored value for the key, if present.
#[verifier::external_body]
fn refs_get(c: &dashmap::DashMap<NodeId, Vec<Location>>, k: NodeId) -> (r: Option<Vec<Location>>)
    ensures
        r == (if ref_contents(*c).dom().contains(k) {
            Some(ref_contents(*c)[k])
        } else {
            None::<Vec<Location>>
        }),
{
    c.get(&k).map(|v| v.clone())
}

/// Relies on dashmap::DashMap::clear: every entry is dropped.
#[verifier::external_body]
fn refs_clear(c: &mut dashmap::DashMap<NodeId, Vec<Location>>)
    ensures
        ref_contents(*final(c)) == empty_refs(),
{
    c.clear();
}

/// Relies on dashmap::DashMap::len: the number of stored entries.
#[verifier::external_body]
fn refs_len(c: &dashmap::DashMap<NodeId, Vec<Location>>) -> (r: usize)
    requires
        ref_contents(*c).dom().finite(),
    ensures
        r == ref_contents(*c).dom().len(),
{
    c.len()
}

// ==========================================
// The layered cache
// ==========================================

/// Caches for expensive queries.
pub struct QueryCache {
    definitions: dashmap::DashMap<(String, u32, u32), NodeId>,
    references: dashmap::DashMap<NodeId, Vec<Location>>,
    call_hierarchies: lru::LruCache<NodeId, CallHierarchyCache, RandomState>,
    dependency_graphs: lru::LruCache<(String, usize), DependencyGraphCache, RandomState>,
    ai_contexts: lru::LruCache<(NodeId, String), AIContextCache, RandomState>,
}

/// Cache statistics.
pub struct CacheStats {
    pub definitions_count: usize,
    pub references_count: usize,
    pub call_hierarchies_count: usize,
    pub dependency_graphs_count: usize,
    pub ai_contexts_count: usize,
}

impl QueryCache {
    /// The definition entries.
    pub closed spec fn defs_view(self) -> Map<(Seq<char>, u32, u32), NodeId> {
        def_contents(self.definitions)
    }

    /// The reference entries.
    pub closed spec fn refs_view(self) -> Map<NodeId, Vec<Location>> {
        ref_contents(self.references)
    }

    /// The call-hierarchy entries.
    pub closed spec fn ch_view(self) -> Map<NodeId, CallHierarchyCache> {
        ch_contents(self.call_hierarchies)
    }

    /// The dependency-graph entries.
    pub closed spec fn dg_view(self) -> Map<(Seq<char>, nat), DependencyGraphCache> {
        dg_contents(self.dependency_graphs)
    }

    /// The AI-context entries.
    pub closed spec fn ai_view(self) -> Map<(NodeId, Seq<char>), AIContextCache> {
        ai_contents(self.ai_contexts)
    }

    /// Every sub-cache has finitely many entries.
    pub closed spec fn wf(self) -> bool {
        &&& self.defs_view().dom().finite()
        &&& self.refs_view().dom().finite()
        &&& self.ch_view().dom().finite()
        &&& self.dg_view().dom().finite()
        &&& self.ai_view().dom().finite()
    }

    /// A cache with the given capacity for the bounded sub-caches; a zero
    /// capacity falls back to one hundred, and the dependency-graph cache
    /// gets half the capacity, at least fifty.
    pub fn new(capacity: usize) -> (r: QueryCache)
        ensures
            r.wf(),
            r.defs_view() =~= Map::<(Seq<char>, u32, u32), NodeId>::empty(),
            r.refs_view() =~= Map::<NodeId, Vec<Location>>::empty(),
            r.ch_view() =~= Map::<NodeId, CallHierarchyCache>::empty(),
            r.dg_view() =~= Map::<(Seq<char>, nat), DependencyGraphCache>::empty(),
            r.ai_view() =~= Map::<(NodeId, Seq<char>), AIContextCache>::empty(),
    {
        let cap = if capacity == 0 {
            100
        } else {
            capacity
        };
        let dg = if cap / 2 == 0 {
            50
        } else {
            cap / 2
        };
        let r = QueryCache {
            definitions: def_new(),
            references: refs_new(),
            call_hierarchies: ch_new(cap),
            dependency_graphs: dg_new(dg),
            ai_contexts: ai_new(cap),
        };
        proof {
            vstd::set_lib::lemma_set_empty_equivalency_len(r.defs_view().dom());
        }
        r
    }

    /// A cached definition lookup.
    pub fn get_definition(&self, path: &str, line: u32, character: u32) -> (r: Option<NodeId>)
        ensures
            r == (if self.defs_view().dom().contains((path@, line, character)) {
                Some(self.defs_view()[(path@, line, character)])
            } else {
                None::<NodeId>
            }),
    {
        def_get(&self.definitions, path, line, character)
    }

    /// Remember a definition lookup.
    pub fn set_definition(&mut self, path: String, line: u32, character: u32, node_id: NodeId)
        requires
            old(self).wf(),
        ensures
            final(self).wf(),
            final(self).defs_view() == old(self).defs_view().insert(
                (path@, line, character),
                node_id,
            ),
            final(self).refs_view() == old(self).refs_view(),
            final(self).ch_view() == old(self).ch_view(),
            final(self).dg_view() == old(self).dg_view(),
            final(self).ai_view() == old(self).ai_view(),
    {
        def_insert(&mut self.definitions, path, line, character, node_id);
    }

    /// Cached reference locations.
    pub fn get_references(&self, node_id: NodeId) -> (r: Option<Vec<Location>>)
        ensures
            r == (if self.refs_view().dom().contains(node_id) {
                Some(self.refs_view()[node_id])
            } else {
                None::<Vec<Location>>
            }),
    {
        refs_get(&self.references, node_id)
    }

    /// Remember reference locations.
    pub fn set_references(&mut self, node_id: NodeId, locations: Vec<Location>)
        requires
            old(self).wf(),
        ensures
            final(self).wf(),
            final(self).refs_view() == old(self).refs_view().insert(node_id, locations),
            final(self).defs_view() == old(self).defs_view(),
            final(self).ch_view() == old(self).ch_view(),
            final(self).dg_view() == old(self).dg_view(),
            final(self).ai_view() == old(self).ai_view(),
    {
        refs_insert(&mut self.references, node_id, locations);
    }

    /// A cached call hierarchy; looking it up refreshes its recency.
    pub fn get_call_hierarchy(&mut self, node_id: NodeId) -> (r: Option<CallHierarchyCache>)
        ensures
            final(self).wf() == old(self).wf(),
            final(self).defs_view() == old(self).defs_view(),
            final(self).refs_view() == old(self).refs_view(),
            final(self).ch_view() == old(self).ch_view(),
            final(self).dg_view() == old(self).dg_view(),
            final(self).ai_view() == old(self).ai_view(),
            r == (if old(self).ch_view().dom().contains(node_id) {
                Some(old(self).ch_view()[node_id])
            } else {
                None::<CallHierarchyCache>
            }),
    {
        ch_get(&mut self.call_hierarchies, node_id)
    }

    /// Remember a call hierarchy; an old entry may be evicted.
    pub fn set_call_hierarchy(&mut self, node_id: NodeId, cache: CallHierarchyCache)
        requires
            old(self).wf(),
        ensures
            final(self).wf(),
            final(self).ch_view().contains_pair(node_id, cache),
            forall|k2: NodeId, v2: CallHierarchyCache|
                k2 != node_id && #[trigger] final(self).ch_view().contains_pair(k2, v2) ==> old(
                    self,
                ).ch_view().contains_pair(k2, v2),
            final(self).defs_view() == old(self).defs_view(),
            final(self).refs_view() == old(self).refs_view(),
            final(self).dg_view() == old(self).dg_view(),
            final(self).ai_view() == old(self).ai_view(),
    {
        ch_put(&mut self.call_hierarchies, node_id, cache);
    }

    /// A cached dependency graph; looking it up refreshes its recency.
    pub fn get_dependency_graph(&mut self, path: &str, depth: usize) -> (r: Option<
        DependencyGraphCache,
    >)
        ensures
            final(self).wf() == old(self).wf(),
            final(self).defs_view() == old(self).defs_view(),
            final(self).refs_view() == old(self).refs_view(),
            final(self).ch_view() == old(self).ch_view(),
            final(self).dg_view() == old(self).dg_view(),
            final(self).ai_view() == old(self).ai_view(),
            r == (if old(self).dg_view().dom().contains((path@, depth as nat)) {
                Some(old(self).dg_view()[(path@, depth as nat)])
            } else {
                None::<DependencyGraphCache>
            }),
    {
        dg_get(&mut self.dependency_graphs, path, depth)
    }

    /// Remember a dependency graph; an old entry may be evicted.
    pub fn set_dependency_graph(&mut self, path: String, depth: usize, cache: DependencyGraphCache)
        requires
            old(self).wf(),
        ensures
            final(self).wf(),
            final(self).dg_view().contains_pair((path@, depth as nat), cache),
            forall|k2: (Seq<char>, nat), v2: DependencyGraphCache|
                k2 != (path@, depth as nat) && #[trigger] final(self).dg_view().contains_pair(
                    k2,
                    v2,
                ) ==> old(self).dg_view().contains_pair(k2, v2),
            final(self).defs_view() == old(self).defs_view(),
            final(self).refs_view() == old(self).refs_view(),
            final(self).ch_view() == old(self).ch_view(),
            final(self).ai_view() == old(self).ai_view(),
    {
        dg_put(&mut self.dependency_graphs, path, depth, cache);
    }

    /// A cached AI context; looking it up refreshes its recency.
    pub fn get_ai_context(&mut self, node_id: NodeId, context_type: &str) -> (r: Option<
        AIContextCache,
    >)
        ensures
            final(self).wf() == old(self).wf(),
            final(self).defs_view() == old(self).defs_view(),
            final(self).refs_view() == old(self).refs_view(),
            final(self).ch_view() == old(self).ch_view(),
            final(self).dg_view() == old(self).dg_view(),
            final(self).ai_view() == old(self).ai_view(),
            r == (if old(self).ai_view().dom().contains((node_id, context_type@)) {
                Some(old(self).ai_view()[(node_id, context_type@)])
            } else {
                None::<AIContextCache>
            }),
    {
        ai_get(&mut self.ai_contexts, node_id, context_type)
    }

    /// Remember an AI context; an old entry may be evicted.
    pub fn set_ai_context(&mut self, node_id: NodeId, context_type: String, cache: AIContextCache)
        requires
            old(self).wf(),
        ensures
            final(self).wf(),
            final(self).ai_view().contains_pair((node_id, context_type@), cache),
            forall|k2: (NodeId, Seq<char>), v2: AIContextCache|
                k2 != (node_id, context_type@) && #[trigger] final(self).ai_view().contains_pair(
                    k2,
                    v2,
                ) ==> old(self).ai_view().contains_pair(k2, v2),
            final(self).defs_view() == old(self).defs_view(),
            final(self).refs_view() == old(self).refs_view(),
            final(self).ch_view() == old(self).ch_view(),
            final(self).dg_view() == old(self).dg_view(),
    {
        ai_put(&mut self.ai_contexts, node_id, context_type, cache);
    }

    /// Drop everything cached for one file: its definition entries go away
    /// precisely; references, call hierarchies, and dependency graphs are
    /// cleared wholesale, since their entries may span files.
    pub fn invalidate_file(&mut self, path: &str)
        requires
            old(self).wf(),
        ensures
            final(self).wf(),
            forall|k: (Seq<char>, u32, u32), v: NodeId|
                #[trigger] final(self).defs_view().contains_pair(k, v) <==> (old(
                    self,
                ).defs_view().contains_pair(k, v) && k.0 != path@),
            final(self).refs_view() =~= Map::<NodeId, Vec<Location>>::empty(),
            final(self).ch_view() =~= Map::<NodeId, CallHierarchyCache>::empty(),
            final(self).dg_view() =~= Map::<(Seq<char>, nat), DependencyGraphCache>::empty(),
            final(self).ai_view() == old(self).ai_view(),
    {
        def_retain_other_paths(&mut self.definitions, path);
        refs_clear(&mut self.references);
        ch_clear(&mut self.call_hierarchies);
        dg_clear(&mut self.dependency_graphs);
        proof {
            lemma_retained_finite(old(self).defs_view(), self.defs_view());
        }
    }

    /// Drop every cached answer.
    pub fn invalidate_all(&mut self)
        ensures
            final(self).wf(),
            final(self).defs_view() =~= Map::<(Seq<char>, u32, u32), NodeId>::empty(),
            final(self).refs_view() =~= Map::<NodeId, Vec<Location>>::empty(),
            final(self).ch_view() =~= Map::<NodeId, CallHierarchyCache>::empty(),
            final(self).dg_view() =~= Map::<(Seq<char>, nat), DependencyGraphCache>::empty(),
            final(self).ai_view() =~= Map::<(NodeId, Seq<char>), AIContextCache>::empty(),
    {
        def_clear(&mut self.definitions);
        refs_clear(&mut self.references);
        ch_clear(&mut self.call_hierarchies);
        dg_clear(&mut self.dependency_graphs);
        ai_clear(&mut self.ai_contexts);
    }

    /// How many entries each sub-cache holds.
    pub fn stats(&self) -> (r: CacheStats)
        requires
            self.wf(),
        ensures
            r.definitions_count == self.defs_view().dom().len(),
            r.references_count == self.refs_view().dom().len(),
            r.call_hierarchies_count == self.ch_view().dom().len(),
            r.dependency_graphs_count == self.dg_view().dom().len(),
            r.ai_contexts_count == self.ai_view().dom().len(),
    {
        CacheStats {
            definitions_count: def_len(&self.definitions),
            references_count: refs_len(&self.references),
            call_hierarchies_count: ch_len(&self.call_hierarchies),
            dependency_graphs_count: dg_len(&self.dependency_graphs),
            ai_contexts_count: ai_len(&self.ai_contexts),
        }
    }
}

impl Default for QueryCache {
    /// A cache with the default capacity of one thousand.
    fn default() -> (r: QueryCache)
        ensures
            r.wf(),
            r.defs_view() =~= Map::<(Seq<char>, u32, u32), NodeId>::empty(),
            r.refs_view() =~= Map::<NodeId, Vec<Location>>::empty(),
            r.ch_view() =~= Map::<NodeId, CallHierarchyCache>::empty(),
            r.dg_view() =~= Map::<(Seq<char>, nat), DependencyGraphCache>::empty(),
            r.ai_view() =~= Map::<(NodeId, Seq<char>), AIContextCache>::empty(),
    {
        QueryCache::new(1000)
    }
}

/// A map whose pairs come from a finite map is finite.
proof fn lemma_retained_finite(
    pre: Map<(Seq<char>, u32, u32), NodeId>,
    post: Map<(Seq<char>, u32, u32), NodeId>,
)
    requires
        pre.dom().finite(),
        forall|k: (Seq<char>, u32, u32), v: NodeId|
            #[trigger] post.contains_pair(k, v) ==> pre.contains_pair(k, v),
    ensures
        post.dom().finite(),
{
    assert(post.dom().subset_of(pre.dom())) by {
        assert forall|k: (Seq<char>, u32, u32)| post.dom().contains(k) implies pre.dom().contains(
            k,
        ) by {
            assert(post.contains_pair(k, post[k]));
        }
    }
    vstd::set_lib::lemma_len_subset(post.dom(), pre.dom());
}

} // verus!
