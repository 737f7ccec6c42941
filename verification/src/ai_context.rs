//! Context selection for AI consumers.
//!
//! Given a position and a strategy (`explain`, `modify`, `debug`, `test`),
//! the resolver assembles the symbol's own source, related symbols chosen
//! by the strategy, import dependencies, and a module-neighborhood sketch,
//! all under a token budget of roughly four characters per token.

use vstd::prelude::*;

use crate::backend::CodeGraphBackend;
use crate::backend::Position;
use crate::backend::name_or_empty;
use crate::backend::spec_loc_opt;
use crate::backend::spec_in_tuples;
use crate::backend::spec_out_tuples;
use crate::error::LspError;
use crate::graph::CodeGraph;
use crate::graph::NodeId;
use crate::graph::NodeType;
use crate::protocol::Range;

verus! {

// ==========================================
// Request and response shapes
// ==========================================

/// An AI-context request.
#[derive(Debug)]
pub struct AIContextParams {
    pub uri: String,
    pub position: Position,
    pub context_type: String,
    pub max_tokens: Option<usize>,
}

/// Where a piece of context lives.
#[derive(Clone, Debug)]
pub struct LocationInfo {
    pub uri: String,
    pub range: Range,
}

/// The symbol the request points at.
#[derive(Clone, Debug)]
pub struct PrimaryContext {
    pub context_type: String,
    pub name: String,
    pub code: String,
    pub language: String,
    pub location: LocationInfo,
}

/// One related symbol, with its relationship to the primary symbol and a
/// relevance weight in hundredths.
#[derive(Clone, Debug)]
pub struct RelatedSymbol {
    pub name: String,
    pub relationship: String,
    pub code: String,
    pub location: LocationInfo,
    pub relevance_score: u32,
}

/// One import dependency of the primary symbol.
#[derive(Debug)]
pub struct DependencyInfo {
    pub name: String,
    pub dep_type: String,
    pub code: Option<String>,
}

/// One usage example.
#[derive(Debug)]
pub struct UsageExample {
    pub code: String,
    pub location: LocationInfo,
    pub description: Option<String>,
}

/// The module the symbol lives in and the modules it touches.
#[derive(Debug)]
pub struct ArchitectureInfo {
    pub module: String,
    pub layer: Option<String>,
    pub neighbors: Vec<String>,
}

/// Bookkeeping of an answered request.
#[derive(Debug)]
pub struct ContextMetadata {
    pub total_tokens: usize,
    pub query_time: u64,
}

/// A full AI-context answer.
#[derive(Debug)]
pub struct AIContextResponse {
    pub primary_context: PrimaryContext,
    pub related_symbols: Vec<RelatedSymbol>,
    pub dependencies: Vec<DependencyInfo>,
    pub usage_examples: Option<Vec<UsageExample>>,
    pub architecture: Option<ArchitectureInfo>,
    pub metadata: ContextMetadata,
}

// ==========================================
// Token budget
// ==========================================

/// A cumulative token budget: `used` never exceeds `total`.
pub struct TokenBudget {
    pub total: usize,
    pub used: usize,
}

impl TokenBudget {
    /// The budget is never overdrawn.
    pub open spec fn wf(self) -> bool {
        self.used <= self.total
    }

    /// A fresh budget with nothing used.
    pub fn new(total: usize) -> (r: TokenBudget)
        ensures
            r.wf(),
            r.total == total,
            r.used == 0,
    {
        TokenBudget { total, used: 0 }
    }

    /// Spend `tokens` if they fit; say whether they did.
    pub fn consume(&mut self, tokens: usize) -> (r: bool)
        requires
            old(self).wf(),
        ensures
            final(self).wf(),
            final(self).total == old(self).total,
            r == (old(self).used + tokens <= old(self).total),
            r ==> final(self).used == old(self).used + tokens,
            !r ==> final(self).used == old(self).used,
    {
        if tokens <= self.total && self.used <= self.total - tokens {
            self.used = self.used + tokens;
            true
        } else {
            false
        }
    }

    /// Whether anything is left to spend.
    pub fn has_budget(&self) -> (r: bool)
        ensures
            r == (self.used < self.total),
    {
        self.used < self.total
    }

    /// How much is left to spend.
    pub fn remaining(&self) -> (r: usize)
        ensures
            r == (if self.used <= self.total {
                self.total - self.used
            } else {
                0
            }),
    {
        if self.used <= self.total {
            self.total - self.used
        } else {
            0
        }
    }
}

/// Estimate the tokens of a code string: one token per four characters.
pub fn estimate_tokens(code: &str) -> (r: usize)
    ensures
        r as nat == code@.len() / 4,
{
    code.unicode_len() / 4
}

// ==========================================
// Strategy labels
// ==========================================

/// The lower-case display name of a node kind.
pub open spec fn spec_kind_lower(nt: NodeType) -> Seq<char> {
    match nt {
        NodeType::Function => "function"@,
        NodeType::Class => "class"@,
        NodeType::Interface => "interface"@,
        NodeType::Module => "module"@,
        NodeType::Variable => "variable"@,
        NodeType::Type => "type"@,
        NodeType::CodeFile => "codefile"@,
        NodeType::Generic => "generic"@,
    }
}

/// The lower-case display name of a node kind.
fn kind_lower(nt: NodeType) -> (r: &'static str)
    ensures
        r@ == spec_kind_lower(nt),
{
    match nt {
        NodeType::Function => "function",
        NodeType::Class => "class",
        NodeType::Interface => "interface",
        NodeType::Module => "module",
        NodeType::Variable => "variable",
        NodeType::Type => "type",
        NodeType::CodeFile => "codefile",
        NodeType::Generic => "generic",
    }
}

// ==========================================
// The selection model
// ==========================================
//
// Every strategy walks edge tuples in order and offers candidates to the
// budget; what each strategy returns is pinned exactly by folds over the
// node's edge tuples, mirrored one step at a time by the loops below.

/// The observable part of one related symbol: name, relationship label,
/// code, location view, and relevance weight.
pub open spec fn rs_view(s: RelatedSymbol) -> (
    Seq<char>,
    Seq<char>,
    Seq<char>,
    (Seq<char>, Range),
    u32,
) {
    (s.name@, s.relationship@, s.code@, (s.location.uri@, s.location.range), s.relevance_score)
}

/// The observable parts of a related-symbol list.
pub open spec fn rs_views(s: Seq<RelatedSymbol>) -> Seq<
    (Seq<char>, Seq<char>, Seq<char>, (Seq<char>, Range), u32),
> {
    s.map_values(|x: RelatedSymbol| rs_view(x))
}

/// The source text recorded on a node, if any.
pub open spec fn node_code(g: CodeGraph, id: NodeId) -> Option<Seq<char>> {
    g.node_str_prop(id, "source"@)
}

/// Offering one candidate to the budget: a node without recorded source is
/// skipped outright; otherwise its tokens are charged if they fit, and the
/// symbol is appended when the node also resolves to a location.
pub open spec fn csr_step(
    g: CodeGraph,
    id: NodeId,
    rel: Seq<char>,
    score: u32,
    out: Seq<(Seq<char>, Seq<char>, Seq<char>, (Seq<char>, Range), u32)>,
    used: nat,
    total: nat,
) -> (Seq<(Seq<char>, Seq<char>, Seq<char>, (Seq<char>, Range), u32)>, nat) {
    match node_code(g, id) {
        Some(code) => {
            let cost = code.len() / 4;
            if used + cost > total {
                (out, used)
            } else {
                match spec_loc_opt(g, id) {
                    Some(lv) => (
                        out.push((name_or_empty(g, id), rel, code, lv, score)),
                        (used + cost) as nat,
                    ),
                    None => (out, (used + cost) as nat),
                }
            }
        },
        None => (out, used),
    }
}

/// Fold a capped run over the first `n` tuples, every tuple's target a
/// candidate; a spent budget or an exhausted cap leaves the rest untouched.
pub open spec fn targets_fold(
    g: CodeGraph,
    tuples: Seq<(NodeId, NodeId, crate::graph::EdgeType)>,
    rel: Seq<char>,
    score: u32,
    out: Seq<(Seq<char>, Seq<char>, Seq<char>, (Seq<char>, Range), u32)>,
    used: nat,
    total: nat,
    cap: nat,
    n: int,
) -> (Seq<(Seq<char>, Seq<char>, Seq<char>, (Seq<char>, Range), u32)>, nat, nat)
    decreases n,
{
    if n <= 0 {
        (out, used, cap)
    } else {
        let s = targets_fold(g, tuples, rel, score, out, used, total, cap, n - 1);
        if s.1 >= total {
            s
        } else if s.2 == 0 {
            s
        } else {
            let t = csr_step(g, tuples[n - 1].1, rel, score, s.0, s.1, total);
            (t.0, t.1, (s.2 - 1) as nat)
        }
    }
}

/// Fold a capped, gated run over the first `n` tuples: only call edges
/// use up the cap, each offering its caller end; the filter admits
/// any name (`want` 0), test-like names (`want` 1), or other names
/// (`want` 2).
pub open spec fn calls_fold(
    g: CodeGraph,
    tuples: Seq<(NodeId, NodeId, crate::graph::EdgeType)>,
    rel: Seq<char>,
    score: u32,
    want: int,
    out: Seq<(Seq<char>, Seq<char>, Seq<char>, (Seq<char>, Range), u32)>,
    used: nat,
    total: nat,
    cap: nat,
    n: int,
) -> (Seq<(Seq<char>, Seq<char>, Seq<char>, (Seq<char>, Range), u32)>, nat, nat)
    decreases n,
{
    if n <= 0 {
        (out, used, cap)
    } else {
        let s = calls_fold(g, tuples, rel, score, want, out, used, total, cap, n - 1);
        let t = tuples[n - 1];
        if s.1 >= total {
            s
        } else if t.2 != crate::graph::EdgeType::Calls {
            s
        } else if s.2 == 0 {
            s
        } else {
            let pass = (want == 0) || (want == 1 && spec_is_test_name(name_or_empty(g, t.0))) || (
            want == 2 && !spec_is_test_name(name_or_empty(g, t.0)));
            if pass {
                let st = csr_step(g, t.0, rel, score, s.0, s.1, total);
                (st.0, st.1, (s.2 - 1) as nat)
            } else {
                (s.0, s.1, (s.2 - 1) as nat)
            }
        }
    }
}

/// Fold over the first `n` tuples offering every supertype: the caller end
/// of each extends edge, uncapped.
pub open spec fn extends_fold(
    g: CodeGraph,
    tuples: Seq<(NodeId, NodeId, crate::graph::EdgeType)>,
    out: Seq<(Seq<char>, Seq<char>, Seq<char>, (Seq<char>, Range), u32)>,
    used: nat,
    total: nat,
    n: int,
) -> (Seq<(Seq<char>, Seq<char>, Seq<char>, (Seq<char>, Range), u32)>, nat)
    decreases n,
{
    if n <= 0 {
        (out, used)
    } else {
        let s = extends_fold(g, tuples, out, used, total, n - 1);
        let t = tuples[n - 1];
        if s.1 >= total {
            s
        } else if t.2 != crate::graph::EdgeType::Extends {
            s
        } else {
            csr_step(g, t.0, "inherits"@, 90, s.0, s.1, total)
        }
    }
}

/// The first caller among the tuples that has not been visited yet.
pub open spec fn first_unvisited_caller(
    tuples: Seq<(NodeId, NodeId, crate::graph::EdgeType)>,
    visited: Seq<NodeId>,
) -> Option<NodeId>
    decreases tuples.len(),
{
    if tuples.len() == 0 {
        None
    } else if tuples[0].2 == crate::graph::EdgeType::Calls && !visited.contains(tuples[0].0) {
        Some(tuples[0].0)
    } else {
        first_unvisited_caller(tuples.drop_first(), visited)
    }
}

/// The relationship label of one caller-chain level.
pub open spec fn depth_label_spec(depth: int) -> Seq<char> {
    if depth == 0 {
        "call_chain_depth_0"@
    } else if depth == 1 {
        "call_chain_depth_1"@
    } else if depth == 2 {
        "call_chain_depth_2"@
    } else if depth == 3 {
        "call_chain_depth_3"@
    } else {
        "call_chain_depth_4"@
    }
}

/// The caller chain of the debug strategy: from each node, follow its
/// first not-yet-visited caller, at most five levels deep, each level ten
/// hundredths less relevant; a spent budget stops the walk.
pub open spec fn chain_fold(
    g: CodeGraph,
    current: NodeId,
    visited: Seq<NodeId>,
    depth: int,
    out: Seq<(Seq<char>, Seq<char>, Seq<char>, (Seq<char>, Range), u32)>,
    used: nat,
    total: nat,
) -> (Seq<(Seq<char>, Seq<char>, Seq<char>, (Seq<char>, Range), u32)>, nat)
    decreases 5 - depth,
{
    if depth < 0 || depth >= 5 {
        (out, used)
    } else {
        match first_unvisited_caller(spec_in_tuples(g, current), visited) {
            None => (out, used),
            Some(src) => {
                if used >= total {
                    (out, used)
                } else {
                    let st = csr_step(
                        g,
                        src,
                        depth_label_spec(depth),
                        (100 - 10 * depth) as u32,
                        out,
                        used,
                        total,
                    );
                    chain_fold(g, src, visited.push(src), depth + 1, st.0, st.1, total)
                }
            },
        }
    }
}

/// What the `explain` strategy returns and spends: up to five direct
/// dependencies at full weight, up to three callers at eighty hundredths,
/// then every supertype at ninety.
pub open spec fn explain_selection(g: CodeGraph, id: NodeId, used0: nat, total: nat) -> (
    Seq<(Seq<char>, Seq<char>, Seq<char>, (Seq<char>, Range), u32)>,
    nat,
) {
    let ot = spec_out_tuples(g, id);
    let it = spec_in_tuples(g, id);
    let s1 = targets_fold(g, ot, "uses"@, 100, Seq::empty(), used0, total, 5, ot.len() as int);
    let s2 = calls_fold(g, it, "called_by"@, 80, 0, s1.0, s1.1, total, 3, it.len() as int);
    let s3 = extends_fold(g, it, s2.0, s2.1, total, it.len() as int);
    s3
}

/// What the `modify` strategy returns and spends: among the first five
/// callers, the tests at full weight; then, among the first five callers
/// again, the others at ninety hundredths.
pub open spec fn modify_selection(g: CodeGraph, id: NodeId, used0: nat, total: nat) -> (
    Seq<(Seq<char>, Seq<char>, Seq<char>, (Seq<char>, Range), u32)>,
    nat,
) {
    let it = spec_in_tuples(g, id);
    let s1 = calls_fold(g, it, "tests"@, 100, 1, Seq::empty(), used0, total, 5, it.len() as int);
    let s2 = calls_fold(g, it, "called_by"@, 90, 2, s1.0, s1.1, total, 5, it.len() as int);
    (s2.0, s2.1)
}

/// What the `debug` strategy returns and spends: the caller chain, then up
/// to three data-flow targets at eighty hundredths.
pub open spec fn debug_selection(g: CodeGraph, id: NodeId, used0: nat, total: nat) -> (
    Seq<(Seq<char>, Seq<char>, Seq<char>, (Seq<char>, Range), u32)>,
    nat,
) {
    let ot = spec_out_tuples(g, id);
    let c = chain_fold(g, id, seq![id], 0, Seq::empty(), used0, total);
    let s2 = targets_fold(g, ot, "data_flow"@, 80, c.0, c.1, total, 3, ot.len() as int);
    (s2.0, s2.1)
}

/// What the `test` strategy returns and spends: up to three calling tests
/// at ninety hundredths, then up to three dependencies to mock at seventy.
pub open spec fn test_selection(g: CodeGraph, id: NodeId, used0: nat, total: nat) -> (
    Seq<(Seq<char>, Seq<char>, Seq<char>, (Seq<char>, Range), u32)>,
    nat,
) {
    let ot = spec_out_tuples(g, id);
    let it = spec_in_tuples(g, id);
    let s1 = calls_fold(
        g,
        it,
        "example_test"@,
        90,
        1,
        Seq::empty(),
        used0,
        total,
        3,
        it.len() as int,
    );
    let s2 = targets_fold(g, ot, "dependency_to_mock"@, 70, s1.0, s1.1, total, 3, ot.len() as int);
    (s2.0, s2.1)
}

/// A capped run stays put once the budget is spent or the cap is gone.
proof fn lemma_targets_fold_stable(
    g: CodeGraph,
    tuples: Seq<(NodeId, NodeId, crate::graph::EdgeType)>,
    rel: Seq<char>,
    score: u32,
    out: Seq<(Seq<char>, Seq<char>, Seq<char>, (Seq<char>, Range), u32)>,
    used: nat,
    total: nat,
    cap: nat,
    k: int,
    n: int,
)
    requires
        0 <= k <= n,
        targets_fold(g, tuples, rel, score, out, used, total, cap, k).1 >= total || targets_fold(
            g,
            tuples,
            rel,
            score,
            out,
            used,
            total,
            cap,
            k,
        ).2 == 0,
    ensures
        targets_fold(g, tuples, rel, score, out, used, total, cap, n) == targets_fold(
            g,
            tuples,
            rel,
            score,
            out,
            used,
            total,
            cap,
            k,
        ),
    decreases n,
{
    if n > k {
        lemma_targets_fold_stable(g, tuples, rel, score, out, used, total, cap, k, n - 1);
    }
}

/// A gated run stays put once the budget is spent or the cap is gone.
proof fn lemma_calls_fold_stable(
    g: CodeGraph,
    tuples: Seq<(NodeId, NodeId, crate::graph::EdgeType)>,
    rel: Seq<char>,
    score: u32,
    want: int,
    out: Seq<(Seq<char>, Seq<char>, Seq<char>, (Seq<char>, Range), u32)>,
    used: nat,
    total: nat,
    cap: nat,
    k: int,
    n: int,
)
    requires
        0 <= k <= n,
        calls_fold(g, tuples, rel, score, want, out, used, total, cap, k).1 >= total || calls_fold(
            g,
            tuples,
            rel,
            score,
            want,
            out,
            used,
            total,
            cap,
            k,
        ).2 == 0,
    ensures
        calls_fold(g, tuples, rel, score, want, out, used, total, cap, n) == calls_fold(
            g,
            tuples,
            rel,
            score,
            want,
            out,
            used,
            total,
            cap,
            k,
        ),
    decreases n,
{
    if n > k {
        lemma_calls_fold_stable(g, tuples, rel, score, want, out, used, total, cap, k, n - 1);
    }
}

/// An uncapped run stays put once the budget is spent.
proof fn lemma_extends_fold_stable(
    g: CodeGraph,
    tuples: Seq<(NodeId, NodeId, crate::graph::EdgeType)>,
    out: Seq<(Seq<char>, Seq<char>, Seq<char>, (Seq<char>, Range), u32)>,
    used: nat,
    total: nat,
    k: int,
    n: int,
)
    requires
        0 <= k <= n,
        extends_fold(g, tuples, out, used, total, k).1 >= total,
    ensures
        extends_fold(g, tuples, out, used, total, n) == extends_fold(g, tuples, out, used, total, k),
    decreases n,
{
    if n > k {
        lemma_extends_fold_stable(g, tuples, out, used, total, k, n - 1);
    }
}

/// A found first caller really is the first: it sits among the tuples, on
/// a call edge.
proof fn lemma_first_caller_member(
    tuples: Seq<(NodeId, NodeId, crate::graph::EdgeType)>,
    visited: Seq<NodeId>,
)
    requires
        first_unvisited_caller(tuples, visited) is Some,
    ensures
        exists|j: int|
            0 <= j < tuples.len() && (#[trigger] tuples[j]).0 == first_unvisited_caller(
                tuples,
                visited,
            ).unwrap(),
    decreases tuples.len(),
{
    if tuples.len() > 0 {
        if tuples[0].2 == crate::graph::EdgeType::Calls && !visited.contains(tuples[0].0) {
            assert(tuples[0].0 == first_unvisited_caller(tuples, visited).unwrap());
        } else {
            lemma_first_caller_member(tuples.drop_first(), visited);
            let j = choose|j: int|
                0 <= j < tuples.drop_first().len() && (#[trigger] tuples.drop_first()[j]).0
                    == first_unvisited_caller(tuples.drop_first(), visited).unwrap();
            assert(tuples[j + 1].0 == first_unvisited_caller(tuples, visited).unwrap());
        }
    }
}

/// Whether a symbol name marks a test: it begins with `test_` or ends with
/// `_test`.
pub open spec fn spec_is_test_name(s: Seq<char>) -> bool {
    ||| (s.len() >= 5 && s.subrange(0, 5) == "test_"@)
    ||| (s.len() >= 5 && s.subrange(s.len() - 5, s.len() as int) == "_test"@)
}

/// Whether a symbol name marks a test.
pub fn is_test_name(name: &str) -> (r: bool)
    ensures
        r == spec_is_test_name(name@),
{
    proof {
        reveal_strlit("test_");
        reveal_strlit("_test");
    }
    let n = name.unicode_len();
    if n < 5 {
        return false;
    }
    let head = name.substring_char(0, 5);
    let tail = name.substring_char(n - 5, n);
    let r = crate::props::str_eq(head, "test_") || crate::props::str_eq(tail, "_test");
    proof {
        assert(head@ == name@.subrange(0, 5));
        assert(tail@ == name@.subrange(name@.len() - 5, name@.len() as int));
    }
    r
}

/// The distinct module stems of the other ends of the first `n` tuples,
/// appended in first-seen order: the symbol's own module and already-seen
/// stems are skipped, as are nodes without a recorded path.
pub open spec fn neighbor_stems_fold(
    g: CodeGraph,
    tuples: Seq<(NodeId, NodeId, crate::graph::EdgeType)>,
    self_id: NodeId,
    own: Seq<char>,
    acc: Seq<Seq<char>>,
    n: int,
) -> Seq<Seq<char>>
    decreases n,
{
    if n <= 0 {
        acc
    } else {
        let pre = neighbor_stems_fold(g, tuples, self_id, own, acc, n - 1);
        let t = tuples[n - 1];
        let other = (if t.0 == self_id {
            t.1
        } else {
            t.0
        });
        match g.node_str_prop(other, "path"@) {
            Some(p) => {
                let st = spec_file_stem(p);
                if st != own && !pre.contains(st) {
                    pre.push(st)
                } else {
                    pre
                }
            },
            None => pre,
        }
    }
}

/// How many of the first `n` edge tuples are import edges.
pub open spec fn import_count_upto(
    tuples: Seq<(NodeId, NodeId, crate::graph::EdgeType)>,
    n: int,
) -> int
    decreases n,
{
    if n <= 0 {
        0
    } else {
        import_count_upto(tuples, n - 1) + (if tuples[n - 1].2 == crate::graph::EdgeType::Imports {
            1int
        } else {
            0int
        })
    }
}

/// The names of the live targets among the first ten import edges of the
/// first `n` tuples, in order: the cap counts import edges, so a dead
/// target still uses one of the ten slots.
pub open spec fn dep_names_upto(
    g: CodeGraph,
    tuples: Seq<(NodeId, NodeId, crate::graph::EdgeType)>,
    n: int,
) -> Seq<Seq<char>>
    decreases n,
{
    if n <= 0 {
        Seq::empty()
    } else {
        let pre = dep_names_upto(g, tuples, n - 1);
        if import_count_upto(tuples, n - 1) < 10 && tuples[n - 1].2
            == crate::graph::EdgeType::Imports && g.has_node(tuples[n - 1].1) {
            pre.push(name_or_empty(g, tuples[n - 1].1))
        } else {
            pre
        }
    }
}

impl CodeGraphBackend {
    /// Offer one candidate to the budget, exactly as `csr_step` says: skip
    /// a node without recorded source; charge its tokens when they fit;
    /// append the symbol when the node also resolves to a location.
    fn create_related_symbol(
        &self,
        node_id: NodeId,
        relationship: &str,
        relevance: u32,
        budget: &mut TokenBudget,
        out: &mut Vec<RelatedSymbol>,
    )
        requires
            old(budget).wf(),
        ensures
            final(budget).wf(),
            final(budget).total == old(budget).total,
            rs_views(final(out)@) == csr_step(
                self.graph,
                node_id,
                relationship@,
                relevance,
                rs_views(old(out)@),
                old(budget).used as nat,
                old(budget).total as nat,
            ).0,
            final(budget).used as nat == csr_step(
                self.graph,
                node_id,
                relationship@,
                relevance,
                rs_views(old(out)@),
                old(budget).used as nat,
                old(budget).total as nat,
            ).1,
    {
        let ghost st = csr_step(
            self.graph,
            node_id,
            relationship@,
            relevance,
            rs_views(old(out)@),
            old(budget).used as nat,
            old(budget).total as nat,
        );
        let code = match self.get_node_source_code(node_id) {
            Some(c) => c,
            None => {
                proof {
                    assert(st == (rs_views(out@), budget.used as nat));
                }
                return ;
            },
        };
        let tokens = estimate_tokens(code.as_str());
        proof {
            assert(node_code(self.graph, node_id) == Some(code@));
        }
        if !budget.consume(tokens) {
            proof {
                assert(st == (rs_views(out@), budget.used as nat));
            }
            return ;
        }
        let node = match self.graph.get_node(node_id) {
            Ok(n) => n,
            Err(_) => unreached(),
        };
        let name: String = match node.properties.get_string("name") {
            Some(nm) => nm.clone(),
            None => String::new(),
        };
        proof {
            assert(name@ == name_or_empty(self.graph, node_id));
        }
        let location = match self.node_to_location(node_id) {
            Ok(loc) => LocationInfo { uri: loc.uri, range: loc.range },
            Err(_) => {
                proof {
                    assert(spec_loc_opt(self.graph, node_id) is None);
                    assert(st == (rs_views(out@), budget.used as nat));
                }
                return ;
            },
        };
        let ghost pre = out@;
        out.push(
            RelatedSymbol {
                name,
                relationship: relationship.to_owned(),
                code,
                location,
                relevance_score: relevance,
            },
        );
        proof {
            assert(rs_views(out@) =~= rs_views(pre).push(rs_view(out@.last())));
            assert(rs_views(out@) == st.0);
        }
    }

    /// Context for explaining a symbol, exactly `explain_selection`: up to
    /// five direct dependencies at full weight, up to three callers at
    /// eighty hundredths, and every supertype at ninety, under the budget.
    fn get_explanation_context(&self, node_id: NodeId, budget: &mut TokenBudget) -> (r: Vec<
        RelatedSymbol,
    >)
        requires
            old(budget).wf(),
            self.graph.has_node(node_id),
            self.graph.edges_closed(),
        ensures
            final(budget).wf(),
            final(budget).total == old(budget).total,
            rs_views(r@) == explain_selection(
                self.graph,
                node_id,
                old(budget).used as nat,
                old(budget).total as nat,
            ).0,
            final(budget).used as nat == explain_selection(
                self.graph,
                node_id,
                old(budget).used as nat,
                old(budget).total as nat,
            ).1,
    {
        let ghost used0 = old(budget).used as nat;
        let ghost total0 = old(budget).total as nat;
        let outgoing = self.get_connected_edges(node_id, crate::graph::Direction::Outgoing);
        let incoming = self.get_connected_edges(node_id, crate::graph::Direction::Incoming);
        let ghost ots = outgoing@;
        let ghost its = incoming@;
        let mut context: Vec<RelatedSymbol> = Vec::new();
        proof {
            assert(rs_views(context@) =~= Seq::<
                (Seq<char>, Seq<char>, Seq<char>, (Seq<char>, Range), u32),
            >::empty());
        }
        let n1 = outgoing.len();
        let mut k: usize = 0;
        let mut taken: usize = 0;
        while k < n1
            invariant
                0 <= k <= n1,
                taken <= 5,
                n1 == ots.len(),
                outgoing@ == ots,
                ots == spec_out_tuples(self.graph, node_id),
                budget.wf(),
                budget.total as nat == total0,
                rs_views(context@) == targets_fold(
                    self.graph,
                    ots,
                    "uses"@,
                    100,
                    Seq::empty(),
                    used0,
                    total0,
                    5,
                    k as int,
                ).0,
                budget.used as nat == targets_fold(
                    self.graph,
                    ots,
                    "uses"@,
                    100,
                    Seq::empty(),
                    used0,
                    total0,
                    5,
                    k as int,
                ).1,
                5 - taken == targets_fold(
                    self.graph,
                    ots,
                    "uses"@,
                    100,
                    Seq::empty(),
                    used0,
                    total0,
                    5,
                    k as int,
                ).2,
            ensures
                budget.wf(),
                budget.total as nat == total0,
                rs_views(context@) == targets_fold(
                    self.graph,
                    ots,
                    "uses"@,
                    100,
                    Seq::empty(),
                    used0,
                    total0,
                    5,
                    ots.len() as int,
                ).0,
                budget.used as nat == targets_fold(
                    self.graph,
                    ots,
                    "uses"@,
                    100,
                    Seq::empty(),
                    used0,
                    total0,
                    5,
                    ots.len() as int,
                ).1,
            decreases n1 - k,
        {
            if taken >= 5 {
                proof {
                    lemma_targets_fold_stable(
                        self.graph,
                        ots,
                        "uses"@,
                        100,
                        Seq::empty(),
                        used0,
                        total0,
                        5,
                        k as int,
                        ots.len() as int,
                    );
                }
                break ;
            }
            if !budget.has_budget() {
                proof {
                    lemma_targets_fold_stable(
                        self.graph,
                        ots,
                        "uses"@,
                        100,
                        Seq::empty(),
                        used0,
                        total0,
                        5,
                        k as int,
                        ots.len() as int,
                    );
                }
                break ;
            }
            let t = outgoing[k];
            self.create_related_symbol(t.1, "uses", 100, budget, &mut context);
            proof {
                assert(rs_views(context@) == targets_fold(
                    self.graph,
                    ots,
                    "uses"@,
                    100,
                    Seq::empty(),
                    used0,
                    total0,
                    5,
                    k as int + 1,
                ).0);
            }
            taken += 1;
            k += 1;
        }
        let ghost s1v = rs_views(context@);
        let ghost s1u = budget.used as nat;
        let n2 = incoming.len();
        let mut k2: usize = 0;
        let mut taken2: usize = 0;
        while k2 < n2
            invariant
                0 <= k2 <= n2,
                taken2 <= 3,
                n2 == its.len(),
                incoming@ == its,
                its == spec_in_tuples(self.graph, node_id),
                budget.wf(),
                budget.total as nat == total0,
                rs_views(context@) == calls_fold(
                    self.graph,
                    its,
                    "called_by"@,
                    80,
                    0,
                    s1v,
                    s1u,
                    total0,
                    3,
                    k2 as int,
                ).0,
                budget.used as nat == calls_fold(
                    self.graph,
                    its,
                    "called_by"@,
                    80,
                    0,
                    s1v,
                    s1u,
                    total0,
                    3,
                    k2 as int,
                ).1,
                3 - taken2 == calls_fold(
                    self.graph,
                    its,
                    "called_by"@,
                    80,
                    0,
                    s1v,
                    s1u,
                    total0,
                    3,
                    k2 as int,
                ).2,
            ensures
                budget.wf(),
                budget.total as nat == total0,
                rs_views(context@) == calls_fold(
                    self.graph,
                    its,
                    "called_by"@,
                    80,
                    0,
                    s1v,
                    s1u,
                    total0,
                    3,
                    its.len() as int,
                ).0,
                budget.used as nat == calls_fold(
                    self.graph,
                    its,
                    "called_by"@,
                    80,
                    0,
                    s1v,
                    s1u,
                    total0,
                    3,
                    its.len() as int,
                ).1,
            decreases n2 - k2,
        {
            if !budget.has_budget() {
                proof {
                    lemma_calls_fold_stable(
                        self.graph,
                        its,
                        "called_by"@,
                        80,
                        0,
                        s1v,
                        s1u,
                        total0,
                        3,
                        k2 as int,
                        its.len() as int,
                    );
                }
                break ;
            }
            let t = incoming[k2];
            let is_calls = match t.2 {
                crate::graph::EdgeType::Calls => true,
                _ => false,
            };
            if is_calls {
                if taken2 >= 3 {
                    proof {
                        lemma_calls_fold_stable(
                            self.graph,
                            its,
                            "called_by"@,
                            80,
                            0,
                            s1v,
                            s1u,
                            total0,
                            3,
                            k2 as int,
                            its.len() as int,
                        );
                    }
                    break ;
                }
                self.create_related_symbol(t.0, "called_by", 80, budget, &mut context);
                taken2 += 1;
            }
            proof {
                assert(rs_views(context@) == calls_fold(
                    self.graph,
                    its,
                    "called_by"@,
                    80,
                    0,
                    s1v,
                    s1u,
                    total0,
                    3,
                    k2 as int + 1,
                ).0);
            }
            k2 += 1;
        }
        let ghost s2v = rs_views(context@);
        let ghost s2u = budget.used as nat;
        let mut k3: usize = 0;
        while k3 < n2
            invariant
                0 <= k3 <= n2,
                n2 == its.len(),
                incoming@ == its,
                its == spec_in_tuples(self.graph, node_id),
                budget.wf(),
                budget.total as nat == total0,
                rs_views(context@) == extends_fold(
                    self.graph,
                    its,
                    s2v,
                    s2u,
                    total0,
                    k3 as int,
                ).0,
                budget.used as nat == extends_fold(
                    self.graph,
                    its,
                    s2v,
                    s2u,
                    total0,
                    k3 as int,
                ).1,
            ensures
                budget.wf(),
                budget.total as nat == total0,
                rs_views(context@) == extends_fold(
                    self.graph,
                    its,
                    s2v,
                    s2u,
                    total0,
                    its.len() as int,
                ).0,
                budget.used as nat == extends_fold(
                    self.graph,
                    its,
                    s2v,
                    s2u,
                    total0,
                    its.len() as int,
                ).1,
            decreases n2 - k3,
        {
            if !budget.has_budget() {
                proof {
                    lemma_extends_fold_stable(
                        self.graph,
                        its,
                        s2v,
                        s2u,
                        total0,
                        k3 as int,
                        its.len() as int,
                    );
                }
                break ;
            }
            let t = incoming[k3];
            let is_ext = match t.2 {
                crate::graph::EdgeType::Extends => true,
                _ => false,
            };
            if is_ext {
                self.create_related_symbol(t.0, "inherits", 90, budget, &mut context);
            }
            proof {
                assert(rs_views(context@) == extends_fold(
                    self.graph,
                    its,
                    s2v,
                    s2u,
                    total0,
                    k3 as int + 1,
                ).0);
            }
            k3 += 1;
        }
        context
    }

    /// Context for modifying a symbol, exactly `modify_selection`: among
    /// the first five callers, the tests at full weight, then the others
    /// at ninety hundredths, under the budget.
    fn get_modification_context(&self, node_id: NodeId, budget: &mut TokenBudget) -> (r: Vec<
        RelatedSymbol,
    >)
        requires
            old(budget).wf(),
            self.graph.has_node(node_id),
            self.graph.edges_closed(),
        ensures
            final(budget).wf(),
            final(budget).total == old(budget).total,
            rs_views(r@) == modify_selection(
                self.graph,
                node_id,
                old(budget).used as nat,
                old(budget).total as nat,
            ).0,
            final(budget).used as nat == modify_selection(
                self.graph,
                node_id,
                old(budget).used as nat,
                old(budget).total as nat,
            ).1,
    {
        let ghost used0 = old(budget).used as nat;
        let ghost total0 = old(budget).total as nat;
        let incoming = self.get_connected_edges(node_id, crate::graph::Direction::Incoming);
        let ghost its = incoming@;
        let mut context: Vec<RelatedSymbol> = Vec::new();
        proof {
            assert(rs_views(context@) =~= Seq::<
                (Seq<char>, Seq<char>, Seq<char>, (Seq<char>, Range), u32),
            >::empty());
        }
        self.calls_pass(&incoming, Ghost(its), "tests", 100, 1, 5, budget, &mut context);
        let ghost s1v = rs_views(context@);
        let ghost s1u = budget.used as nat;
        proof {
            assert(s1v == calls_fold(
                self.graph,
                its,
                "tests"@,
                100,
                1,
                Seq::empty(),
                used0,
                total0,
                5,
                its.len() as int,
            ).0);
        }
        self.calls_pass(&incoming, Ghost(its), "called_by", 90, 2, 5, budget, &mut context);
        context
    }

    /// One gated pass over call edges: exactly `calls_fold` with the given
    /// label, weight, gate, and cap.
    fn calls_pass(
        &self,
        incoming: &Vec<(NodeId, NodeId, crate::graph::EdgeType)>,
        Ghost(its): Ghost<Seq<(NodeId, NodeId, crate::graph::EdgeType)>>,
        rel: &str,
        score: u32,
        want: i32,
        cap: usize,
        budget: &mut TokenBudget,
        context: &mut Vec<RelatedSymbol>,
    )
        requires
            old(budget).wf(),
            incoming@ == its,
            1 <= cap <= 5,
            want == 1 || want == 2,
        ensures
            final(budget).wf(),
            final(budget).total == old(budget).total,
            rs_views(final(context)@) == calls_fold(
                self.graph,
                its,
                rel@,
                score,
                want as int,
                rs_views(old(context)@),
                old(budget).used as nat,
                old(budget).total as nat,
                cap as nat,
                its.len() as int,
            ).0,
            final(budget).used as nat == calls_fold(
                self.graph,
                its,
                rel@,
                score,
                want as int,
                rs_views(old(context)@),
                old(budget).used as nat,
                old(budget).total as nat,
                cap as nat,
                its.len() as int,
            ).1,
    {
        let ghost base = rs_views(old(context)@);
        let ghost used0 = old(budget).used as nat;
        let ghost total0 = old(budget).total as nat;
        let n = incoming.len();
        let mut k: usize = 0;
        let mut taken: usize = 0;
        while k < n
            invariant
                0 <= k <= n,
                taken <= cap,
                1 <= cap <= 5,
                want == 1 || want == 2,
                n == its.len(),
                incoming@ == its,
                budget.wf(),
                budget.total as nat == total0,
                rs_views(context@) == calls_fold(
                    self.graph,
                    its,
                    rel@,
                    score,
                    want as int,
                    base,
                    used0,
                    total0,
                    cap as nat,
                    k as int,
                ).0,
                budget.used as nat == calls_fold(
                    self.graph,
                    its,
                    rel@,
                    score,
                    want as int,
                    base,
                    used0,
                    total0,
                    cap as nat,
                    k as int,
                ).1,
                cap - taken == calls_fold(
                    self.graph,
                    its,
                    rel@,
                    score,
                    want as int,
                    base,
                    used0,
                    total0,
                    cap as nat,
                    k as int,
                ).2,
            ensures
                budget.wf(),
                budget.total as nat == total0,
                rs_views(context@) == calls_fold(
                    self.graph,
                    its,
                    rel@,
                    score,
                    want as int,
                    base,
                    used0,
                    total0,
                    cap as nat,
                    its.len() as int,
                ).0,
                budget.used as nat == calls_fold(
                    self.graph,
                    its,
                    rel@,
                    score,
                    want as int,
                    base,
                    used0,
                    total0,
                    cap as nat,
                    its.len() as int,
                ).1,
            decreases n - k,
        {
            if !budget.has_budget() {
                proof {
                    lemma_calls_fold_stable(
                        self.graph,
                        its,
                        rel@,
                        score,
                        want as int,
                        base,
                        used0,
                        total0,
                        cap as nat,
                        k as int,
                        its.len() as int,
                    );
                }
                break ;
            }
            let t = incoming[k];
            let is_calls = match t.2 {
                crate::graph::EdgeType::Calls => true,
                _ => false,
            };
            if is_calls {
                if taken >= cap {
                    proof {
                        lemma_calls_fold_stable(
                            self.graph,
                            its,
                            rel@,
                            score,
                            want as int,
                            base,
                            used0,
                            total0,
                            cap as nat,
                            k as int,
                            its.len() as int,
                        );
                    }
                    break ;
                }
                let test_like = match self.graph.get_node(t.0) {
                    Ok(node) => match node.properties.get_string("name") {
                        Some(nm) => is_test_name(nm.as_str()),
                        None => false,
                    },
                    Err(_) => false,
                };
                proof {
                    assert(test_like == spec_is_test_name(name_or_empty(self.graph, t.0)));
                }
                let pass = if want == 1 {
                    test_like
                } else {
                    !test_like
                };
                if pass {
                    self.create_related_symbol(t.0, rel, score, budget, &mut *context);
                }
                taken += 1;
            }
            proof {
                assert(rs_views(context@) == calls_fold(
                    self.graph,
                    its,
                    rel@,
                    score,
                    want as int,
                    base,
                    used0,
                    total0,
                    cap as nat,
                    k as int + 1,
                ).0);
            }
            k += 1;
        }
    }

    /// Context for debugging a symbol, exactly `debug_selection`: the
    /// chain of first-unvisited callers up to depth five, each level ten
    /// hundredths less relevant, then up to three data-flow targets at
    /// eighty, under the budget.
    fn get_debug_context(&self, node_id: NodeId, budget: &mut TokenBudget) -> (r: Vec<
        RelatedSymbol,
    >)
        requires
            old(budget).wf(),
            self.graph.has_node(node_id),
            self.graph.edges_closed(),
        ensures
            final(budget).wf(),
            final(budget).total == old(budget).total,
            rs_views(r@) == debug_selection(
                self.graph,
                node_id,
                old(budget).used as nat,
                old(budget).total as nat,
            ).0,
            final(budget).used as nat == debug_selection(
                self.graph,
                node_id,
                old(budget).used as nat,
                old(budget).total as nat,
            ).1,
    {
        let ghost used0 = old(budget).used as nat;
        let ghost total0 = old(budget).total as nat;
        let mut context: Vec<RelatedSymbol> = Vec::new();
        let mut visited: Vec<NodeId> = Vec::new();
        visited.push(node_id);
        let mut current = node_id;
        let mut depth: u32 = 0;
        proof {
            assert(visited@ =~= seq![node_id]);
            assert(rs_views(context@) =~= Seq::<
                (Seq<char>, Seq<char>, Seq<char>, (Seq<char>, Range), u32),
            >::empty());
        }
        while depth < 5
            invariant
                depth <= 5,
                self.graph.has_node(current),
                self.graph.edges_closed(),
                budget.wf(),
                budget.total as nat == total0,
                chain_fold(
                    self.graph,
                    current,
                    visited@,
                    depth as int,
                    rs_views(context@),
                    budget.used as nat,
                    total0,
                ) == chain_fold(
                    self.graph,
                    node_id,
                    seq![node_id],
                    0,
                    Seq::empty(),
                    used0,
                    total0,
                ),
            ensures
                budget.wf(),
                budget.total as nat == total0,
                rs_views(context@) == chain_fold(
                    self.graph,
                    node_id,
                    seq![node_id],
                    0,
                    Seq::empty(),
                    used0,
                    total0,
                ).0,
                budget.used as nat == chain_fold(
                    self.graph,
                    node_id,
                    seq![node_id],
                    0,
                    Seq::empty(),
                    used0,
                    total0,
                ).1,
            decreases 5 - depth,
        {
            if !budget.has_budget() {
                proof {
                    assert(chain_fold(
                        self.graph,
                        current,
                        visited@,
                        depth as int,
                        rs_views(context@),
                        budget.used as nat,
                        total0,
                    ) == (rs_views(context@), budget.used as nat)) by {
                        match first_unvisited_caller(
                            spec_in_tuples(self.graph, current),
                            visited@,
                        ) {
                            None => {},
                            Some(_) => {},
                        }
                    }
                }
                break ;
            }
            let incoming = self.get_connected_edges(current, crate::graph::Direction::Incoming);
            let ghost its = incoming@;
            let ghost vsnap = visited@;
            let n_in = incoming.len();
            let mut j: usize = 0;
            let mut caller: Option<NodeId> = None;
            proof {
                assert(its.skip(0) =~= its);
                if its.len() == 0 {
                    assert(first_unvisited_caller(its, vsnap) is None);
                }
            }
            while j < n_in
                invariant_except_break
                    caller is None,
                invariant
                    0 <= j <= n_in,
                    n_in == its.len(),
                    incoming@ == its,
                    visited@ == vsnap,
                    first_unvisited_caller(its, vsnap) == first_unvisited_caller(
                        its.skip(j as int),
                        vsnap,
                    ),
                    j == n_in ==> first_unvisited_caller(its, vsnap) is None,
                ensures
                    visited@ == vsnap,
                    match caller {
                        Some(c) => first_unvisited_caller(its, vsnap) == Some(c),
                        None => first_unvisited_caller(its, vsnap) is None,
                    },
                decreases n_in - j,
            {
                proof {
                    assert(its.skip(j as int)[0] == its[j as int]);
                    assert(its.skip(j as int).drop_first() =~= its.skip(j as int + 1));
                }
                let t = incoming[j];
                let is_calls = match t.2 {
                    crate::graph::EdgeType::Calls => true,
                    _ => false,
                };
                if is_calls && !vec_has_id(&visited, t.0) {
                    caller = Some(t.0);
                    proof {
                        assert(first_unvisited_caller(its.skip(j as int), vsnap) == Some(t.0));
                    }
                    break ;
                }
                proof {
                    if j + 1 == n_in {
                        assert(its.skip(j as int + 1) =~= Seq::<
                            (NodeId, NodeId, crate::graph::EdgeType),
                        >::empty());
                    }
                }
                j += 1;
            }
            match caller {
                Some(src) => {
                    proof {
                        lemma_first_caller_member(its, vsnap);
                        crate::backend::lemma_connected_tuples_live(self.graph, current);
                        assert(self.graph.has_node(src));
                    }
                    let relationship = depth_label(depth);
                    let relevance: u32 = 100 - depth * 10;
                    let ghost pre_current = current;
                    let ghost pre_visited = visited@;
                    let ghost pre_depth = depth as int;
                    let ghost pre_views = rs_views(context@);
                    let ghost pre_used = budget.used as nat;
                    self.create_related_symbol(
                        src,
                        relationship,
                        relevance,
                        budget,
                        &mut context,
                    );
                    visited.push(src);
                    proof {
                        assert(chain_fold(
                            self.graph,
                            pre_current,
                            pre_visited,
                            pre_depth,
                            pre_views,
                            pre_used,
                            total0,
                        ) == chain_fold(
                            self.graph,
                            src,
                            pre_visited.push(src),
                            pre_depth + 1,
                            rs_views(context@),
                            budget.used as nat,
                            total0,
                        ));
                        assert(visited@ == pre_visited.push(src));
                    }
                    current = src;
                    depth += 1;
                },
                None => {
                    proof {
                        assert(chain_fold(
                            self.graph,
                            current,
                            visited@,
                            depth as int,
                            rs_views(context@),
                            budget.used as nat,
                            total0,
                        ) == (rs_views(context@), budget.used as nat));
                    }
                    break ;
                },
            }
        }
        let ghost cv = rs_views(context@);
        let ghost cu = budget.used as nat;
        let outgoing = self.get_connected_edges(node_id, crate::graph::Direction::Outgoing);
        let ghost ots = outgoing@;
        let n1 = outgoing.len();
        let mut k: usize = 0;
        let mut taken: usize = 0;
        while k < n1
            invariant
                0 <= k <= n1,
                taken <= 3,
                n1 == ots.len(),
                outgoing@ == ots,
                ots == spec_out_tuples(self.graph, node_id),
                budget.wf(),
                budget.total as nat == total0,
                rs_views(context@) == targets_fold(
                    self.graph,
                    ots,
                    "data_flow"@,
                    80,
                    cv,
                    cu,
                    total0,
                    3,
                    k as int,
                ).0,
                budget.used as nat == targets_fold(
                    self.graph,
                    ots,
                    "data_flow"@,
                    80,
                    cv,
                    cu,
                    total0,
                    3,
                    k as int,
                ).1,
                3 - taken == targets_fold(
                    self.graph,
                    ots,
                    "data_flow"@,
                    80,
                    cv,
                    cu,
                    total0,
                    3,
                    k as int,
                ).2,
            ensures
                budget.wf(),
                budget.total as nat == total0,
                rs_views(context@) == targets_fold(
                    self.graph,
                    ots,
                    "data_flow"@,
                    80,
                    cv,
                    cu,
                    total0,
                    3,
                    ots.len() as int,
                ).0,
                budget.used as nat == targets_fold(
                    self.graph,
                    ots,
                    "data_flow"@,
                    80,
                    cv,
                    cu,
                    total0,
                    3,
                    ots.len() as int,
                ).1,
            decreases n1 - k,
        {
            if taken >= 3 {
                proof {
                    lemma_targets_fold_stable(
                        self.graph,
                        ots,
                        "data_flow"@,
                        80,
                        cv,
                        cu,
                        total0,
                        3,
                        k as int,
                        ots.len() as int,
                    );
                }
                break ;
            }
            if !budget.has_budget() {
                proof {
                    lemma_targets_fold_stable(
                        self.graph,
                        ots,
                        "data_flow"@,
                        80,
                        cv,
                        cu,
                        total0,
                        3,
                        k as int,
                        ots.len() as int,
                    );
                }
                break ;
            }
            let t = outgoing[k];
            self.create_related_symbol(t.1, "data_flow", 80, budget, &mut context);
            proof {
                assert(rs_views(context@) == targets_fold(
                    self.graph,
                    ots,
                    "data_flow"@,
                    80,
                    cv,
                    cu,
                    total0,
                    3,
                    k as int + 1,
                ).0);
            }
            taken += 1;
            k += 1;
        }
        context
    }

    /// Context for writing tests, exactly `test_selection`: up to three
    /// calling tests at ninety hundredths, then up to three dependencies
    /// to mock at seventy, under the budget.
    fn get_test_context(&self, node_id: NodeId, budget: &mut TokenBudget) -> (r: Vec<
        RelatedSymbol,
    >)
        requires
            old(budget).wf(),
            self.graph.has_node(node_id),
            self.graph.edges_closed(),
        ensures
            final(budget).wf(),
            final(budget).total == old(budget).total,
            rs_views(r@) == test_selection(
                self.graph,
                node_id,
                old(budget).used as nat,
                old(budget).total as nat,
            ).0,
            final(budget).used as nat == test_selection(
                self.graph,
                node_id,
                old(budget).used as nat,
                old(budget).total as nat,
            ).1,
    {
        let ghost used0 = old(budget).used as nat;
        let ghost total0 = old(budget).total as nat;
        let incoming = self.get_connected_edges(node_id, crate::graph::Direction::Incoming);
        let ghost its = incoming@;
        let mut context: Vec<RelatedSymbol> = Vec::new();
        proof {
            assert(rs_views(context@) =~= Seq::<
                (Seq<char>, Seq<char>, Seq<char>, (Seq<char>, Range), u32),
            >::empty());
        }
        self.calls_pass(&incoming, Ghost(its), "example_test", 90, 1, 3, budget, &mut context);
        let ghost s1v = rs_views(context@);
        let ghost s1u = budget.used as nat;
        let outgoing = self.get_connected_edges(node_id, crate::graph::Direction::Outgoing);
        let ghost ots = outgoing@;
        let n1 = outgoing.len();
        let mut k: usize = 0;
        let mut taken: usize = 0;
        while k < n1
            invariant
                0 <= k <= n1,
                taken <= 3,
                n1 == ots.len(),
                outgoing@ == ots,
                ots == spec_out_tuples(self.graph, node_id),
                budget.wf(),
                budget.total as nat == total0,
                rs_views(context@) == targets_fold(
                    self.graph,
                    ots,
                    "dependency_to_mock"@,
                    70,
                    s1v,
                    s1u,
                    total0,
                    3,
                    k as int,
                ).0,
                budget.used as nat == targets_fold(
                    self.graph,
                    ots,
                    "dependency_to_mock"@,
                    70,
                    s1v,
                    s1u,
                    total0,
                    3,
                    k as int,
                ).1,
                3 - taken == targets_fold(
                    self.graph,
                    ots,
                    "dependency_to_mock"@,
                    70,
                    s1v,
                    s1u,
                    total0,
                    3,
                    k as int,
                ).2,
            ensures
                budget.wf(),
                budget.total as nat == total0,
                rs_views(context@) == targets_fold(
                    self.graph,
                    ots,
                    "dependency_to_mock"@,
                    70,
                    s1v,
                    s1u,
                    total0,
                    3,
                    ots.len() as int,
                ).0,
                budget.used as nat == targets_fold(
                    self.graph,
                    ots,
                    "dependency_to_mock"@,
                    70,
                    s1v,
                    s1u,
                    total0,
                    3,
                    ots.len() as int,
                ).1,
            decreases n1 - k,
        {
            if taken >= 3 {
                proof {
                    lemma_targets_fold_stable(
                        self.graph,
                        ots,
                        "dependency_to_mock"@,
                        70,
                        s1v,
                        s1u,
                        total0,
                        3,
                        k as int,
                        ots.len() as int,
                    );
                }
                break ;
            }
            if !budget.has_budget() {
                proof {
                    lemma_targets_fold_stable(
                        self.graph,
                        ots,
                        "dependency_to_mock"@,
                        70,
                        s1v,
                        s1u,
                        total0,
                        3,
                        k as int,
                        ots.len() as int,
                    );
                }
                break ;
            }
            let t = outgoing[k];
            self.create_related_symbol(t.1, "dependency_to_mock", 70, budget, &mut context);
            proof {
                assert(rs_views(context@) == targets_fold(
                    self.graph,
                    ots,
                    "dependency_to_mock"@,
                    70,
                    s1v,
                    s1u,
                    total0,
                    3,
                    k as int + 1,
                ).0);
            }
            taken += 1;
            k += 1;
        }
        context
    }

    /// Up to ten import dependencies of the symbol, by name: the names of
    /// the first ten live targets of outgoing import edges, in edge order.
    fn get_dependencies(&self, node_id: NodeId) -> (r: Vec<DependencyInfo>)
        ensures
            self.graph.has_node(node_id) ==> r@.map_values((|d: DependencyInfo| d.name@))
                == dep_names_upto(
                self.graph,
                crate::backend::spec_out_tuples(self.graph, node_id),
                crate::backend::spec_out_tuples(self.graph, node_id).len() as int,
            ),
            forall|i: int|
                0 <= i < r@.len() ==> ((#[trigger] r@[i]).dep_type@ == "import"@
                    && r@[i].code is None),
            r@.len() <= 10,
    {
        let outgoing = self.get_connected_edges(node_id, crate::graph::Direction::Outgoing);
        let ghost ts = outgoing@;
        let ghost live = self.graph.has_node(node_id);
        let mut deps: Vec<DependencyInfo> = Vec::new();
        let n = outgoing.len();
        let mut k: usize = 0;
        proof {
            assert(deps@.map_values((|d: DependencyInfo| d.name@)) =~= dep_names_upto(
                self.graph,
                ts,
                0,
            ));
        }
        let mut taken: usize = 0;
        while k < n
            invariant
                0 <= k <= n,
                n == ts.len(),
                outgoing@ == ts,
                deps@.len() <= taken <= k,
                deps@.len() <= 10,
                taken == import_count_upto(ts, k as int),
                deps@.map_values((|d: DependencyInfo| d.name@)) == dep_names_upto(
                    self.graph,
                    ts,
                    k as int,
                ),
                forall|i: int|
                    0 <= i < deps@.len() ==> ((#[trigger] deps@[i]).dep_type@ == "import"@
                        && deps@[i].code is None),
            decreases n - k,
        {
            let t = outgoing[k];
            let is_import = match t.2 {
                crate::graph::EdgeType::Imports => true,
                _ => false,
            };
            if is_import {
                if taken < 10 {
                    match self.graph.get_node(t.1) {
                        Ok(node) => {
                            let name: String = match node.properties.get_string("name") {
                                Some(nm) => nm.clone(),
                                None => String::new(),
                            };
                            proof {
                                assert(name@ == name_or_empty(self.graph, ts[k as int].1));
                            }
                            deps.push(
                                DependencyInfo { name, dep_type: "import".to_owned(), code: None },
                            );
                        },
                        Err(_) => {},
                    }
                }
                taken += 1;
            }
            proof {
                assert(deps@.map_values((|d: DependencyInfo| d.name@)) =~= dep_names_upto(
                    self.graph,
                    ts,
                    k as int + 1,
                ));
            }
            k += 1;
        }
        proof {
            if live {
                assert(ts == crate::backend::spec_out_tuples(self.graph, node_id));
            }
        }
        deps
    }

    /// The module the symbol lives in and the distinct modules of its
    /// neighbors. The module is the file stem of the node's recorded path;
    /// a node without a path has no architecture.
    fn get_architecture_info(&self, node_id: NodeId) -> (r: Option<ArchitectureInfo>)
        ensures
            r matches Some(info) ==> ({
                &&& info.layer is None
                &&& self.graph.has_node(node_id)
                &&& (match self.graph.node_str_prop(node_id, "path"@) {
                    Some(p) => info.module@ == spec_file_stem(p)
                        && info.neighbors@.map_values((|s: String| s@)) == ({
                        let own = spec_file_stem(p);
                        let ot = spec_out_tuples(self.graph, node_id);
                        let it = spec_in_tuples(self.graph, node_id);
                        neighbor_stems_fold(
                            self.graph,
                            it,
                            node_id,
                            own,
                            neighbor_stems_fold(
                                self.graph,
                                ot,
                                node_id,
                                own,
                                Seq::empty(),
                                ot.len() as int,
                            ),
                            it.len() as int,
                        )
                    }),
                    None => false,
                })
            }),
            r is None ==> (!self.graph.has_node(node_id) || self.graph.node_str_prop(
                node_id,
                "path"@,
            ) is None),
    {
        let node = match self.graph.get_node(node_id) {
            Ok(n) => n,
            Err(_) => {
                return None;
            },
        };
        let path = match node.properties.get_string("path") {
            Some(p) => p.clone(),
            None => {
                return None;
            },
        };
        let module = file_stem_of(path.as_str());
        let ghost own = module@;
        let outgoing = self.get_connected_edges(node_id, crate::graph::Direction::Outgoing);
        let incoming = self.get_connected_edges(node_id, crate::graph::Direction::Incoming);
        let ghost ots = outgoing@;
        let ghost its = incoming@;
        let mut neighbors: Vec<String> = Vec::new();
        proof {
            assert(neighbors@.map_values((|s: String| s@)) =~= Seq::<Seq<char>>::empty());
        }
        let n1 = outgoing.len();
        let mut k: usize = 0;
        while k < n1
            invariant
                0 <= k <= n1,
                n1 == ots.len(),
                outgoing@ == ots,
                ots == spec_out_tuples(self.graph, node_id),
                module@ == own,
                neighbors@.map_values((|s: String| s@)) == neighbor_stems_fold(
                    self.graph,
                    ots,
                    node_id,
                    own,
                    Seq::empty(),
                    k as int,
                ),
            decreases n1 - k,
        {
            let other = if outgoing[k].0 == node_id {
                outgoing[k].1
            } else {
                outgoing[k].0
            };
            push_neighbor_module(self, other, module.as_str(), &mut neighbors);
            proof {
                assert(neighbors@.map_values((|s: String| s@)) == neighbor_stems_fold(
                    self.graph,
                    ots,
                    node_id,
                    own,
                    Seq::empty(),
                    k as int + 1,
                ));
            }
            k += 1;
        }
        let ghost base = neighbors@.map_values((|s: String| s@));
        let n2 = incoming.len();
        let mut k2: usize = 0;
        while k2 < n2
            invariant
                0 <= k2 <= n2,
                n2 == its.len(),
                incoming@ == its,
                its == spec_in_tuples(self.graph, node_id),
                module@ == own,
                neighbors@.map_values((|s: String| s@)) == neighbor_stems_fold(
                    self.graph,
                    its,
                    node_id,
                    own,
                    base,
                    k2 as int,
                ),
            decreases n2 - k2,
        {
            let other = if incoming[k2].0 == node_id {
                incoming[k2].1
            } else {
                incoming[k2].0
            };
            push_neighbor_module(self, other, module.as_str(), &mut neighbors);
            proof {
                assert(neighbors@.map_values((|s: String| s@)) == neighbor_stems_fold(
                    self.graph,
                    its,
                    node_id,
                    own,
                    base,
                    k2 as int + 1,
                ));
            }
            k2 += 1;
        }
        Some(ArchitectureInfo { module, layer: None, neighbors })
    }

    /// Answer an AI-context request. The metadata's token count never
    /// exceeds the requested budget (four thousand when none is given).
    pub fn handle_get_ai_context(
        &self,
        uri: String,
        path: &str,
        position: Position,
        context_type: &str,
        max_tokens: Option<usize>,
    ) -> (r: Result<AIContextResponse, LspError>)
        requires
            self.inv(),
            position.line < u32::MAX,
        ensures
            self.spec_find_node(path@, (position.line + 1) as u32, position.character) is None
                ==> (r matches Err(e) && e matches LspError::SymbolNotFound),
            r matches Ok(resp) ==> resp.metadata.total_tokens <= (match max_tokens {
                Some(m) => m,
                None => 4000,
            }),
            self.spec_find_node(path@, (position.line + 1) as u32, position.character) is Some
                ==> r is Ok,
            r matches Ok(resp) ==> ({
                let nid = self.spec_find_node(
                    path@,
                    (position.line + 1) as u32,
                    position.character,
                ).unwrap();
                let total0 = (match max_tokens {
                    Some(m) => m as nat,
                    None => 4000 as nat,
                });
                let pcode = (match node_code(self.graph, nid) {
                    Some(c) => c,
                    None => "<source not available>"@,
                });
                let used0 = (if pcode.len() / 4 <= total0 {
                    pcode.len() / 4
                } else {
                    0 as nat
                });
                &&& resp.primary_context.context_type@ == spec_kind_lower(
                    self.graph.node_at(nid).node_type,
                )
                &&& resp.primary_context.name@ == name_or_empty(self.graph, nid)
                &&& resp.primary_context.code@ == pcode
                &&& (context_type@ == "explain"@ ==> rs_views(resp.related_symbols@)
                    == explain_selection(self.graph, nid, used0, total0).0
                    && resp.metadata.total_tokens as nat == explain_selection(
                    self.graph,
                    nid,
                    used0,
                    total0,
                ).1)
                &&& (context_type@ == "modify"@ ==> rs_views(resp.related_symbols@)
                    == modify_selection(self.graph, nid, used0, total0).0
                    && resp.metadata.total_tokens as nat == modify_selection(
                    self.graph,
                    nid,
                    used0,
                    total0,
                ).1)
                &&& (context_type@ == "debug"@ ==> rs_views(resp.related_symbols@)
                    == debug_selection(self.graph, nid, used0, total0).0
                    && resp.metadata.total_tokens as nat == debug_selection(
                    self.graph,
                    nid,
                    used0,
                    total0,
                ).1)
                &&& (context_type@ == "test"@ ==> rs_views(resp.related_symbols@)
                    == test_selection(self.graph, nid, used0, total0).0
                    && resp.metadata.total_tokens as nat == test_selection(
                    self.graph,
                    nid,
                    used0,
                    total0,
                ).1)
                &&& ((context_type@ != "explain"@ && context_type@ != "modify"@ && context_type@
                    != "debug"@ && context_type@ != "test"@) ==> resp.related_symbols@.len() == 0
                    && resp.metadata.total_tokens as nat == used0)
            }),
    {
        let node_id = match self.find_node_at_position(path, position) {
            Ok(Some(id)) => id,
            Ok(None) => {
                return Err(LspError::SymbolNotFound);
            },
            Err(_) => {
                return Err(LspError::SymbolNotFound);
            },
        };
        proof {
            crate::backend::lemma_found_node_live(
                *self,
                path@,
                (position.line + 1) as u32,
                position.character,
            );
        }
        let node = match self.graph.get_node(node_id) {
            Ok(n) => n,
            Err(_) => unreached(),
        };
        let max = match max_tokens {
            Some(m) => m,
            None => 4000,
        };
        let primary_code: String = match self.get_node_source_code(node_id) {
            Some(c) => c,
            None => "<source not available>".to_owned(),
        };
        let name: String = match node.properties.get_string("name") {
            Some(nm) => nm.clone(),
            None => String::new(),
        };
        let node_type = kind_lower(node.node_type).to_owned();
        let language: String = match node.properties.get_string("language") {
            Some(l) => l.clone(),
            None => {
                match self.parsers.language_for_path(path) {
                    Some(l) => l.to_owned(),
                    None => "unknown".to_owned(),
                }
            },
        };
        let location = match self.node_to_location(node_id) {
            Ok(loc) => LocationInfo { uri: loc.uri, range: loc.range },
            Err(_) => LocationInfo {
                uri,
                range: crate::protocol::Range {
                    start: Position { line: 0, character: 0 },
                    end: Position { line: 0, character: 0 },
                },
            },
        };
        let mut budget = TokenBudget::new(max);
        let tokens = estimate_tokens(primary_code.as_str());
        budget.consume(tokens);
        proof {
            reveal_strlit("explain");
            reveal_strlit("modify");
            reveal_strlit("debug");
            reveal_strlit("test");
            assert(("explain"@).len() == 7);
            assert(("modify"@).len() == 6);
            assert(("debug"@).len() == 5);
            assert(("test"@).len() == 4);
        }
        let related_symbols: Vec<RelatedSymbol> = if crate::props::str_eq(context_type, "explain") {
            self.get_explanation_context(node_id, &mut budget)
        } else if crate::props::str_eq(context_type, "modify") {
            self.get_modification_context(node_id, &mut budget)
        } else if crate::props::str_eq(context_type, "debug") {
            self.get_debug_context(node_id, &mut budget)
        } else if crate::props::str_eq(context_type, "test") {
            self.get_test_context(node_id, &mut budget)
        } else {
            Vec::new()
        };
        let dependencies = self.get_dependencies(node_id);
        let architecture = self.get_architecture_info(node_id);
        let total = budget.used;
        proof {
            assert(total <= max);
        }
        Ok(
            AIContextResponse {
                primary_context: PrimaryContext {
                    context_type: node_type,
                    name,
                    code: primary_code,
                    language,
                    location,
                },
                related_symbols,
                dependencies,
                usage_examples: None,
                architecture,
                metadata: ContextMetadata { total_tokens: total, query_time: 0 },
            },
        )
    }
}

/// Whether the list holds the id.
fn vec_has_id(v: &Vec<NodeId>, id: NodeId) -> (r: bool)
    ensures
        r == v@.contains(id),
{
    let mut i: usize = 0;
    while i < v.len()
        invariant
            0 <= i <= v@.len(),
            forall|j: int| 0 <= j < i ==> v@[j] != id,
        decreases v@.len() - i,
    {
        if v[i] == id {
            return true;
        }
        i += 1;
    }
    false
}

/// The relationship label of one caller-chain level.
fn depth_label(depth: u32) -> (r: &'static str)
    requires
        depth < 5,
    ensures
        r@ == depth_label_spec(depth as int),
{
    match depth {
        0 => "call_chain_depth_0",
        1 => "call_chain_depth_1",
        2 => "call_chain_depth_2",
        3 => "call_chain_depth_3",
        _ => "call_chain_depth_4",
    }
}

/// Whether `ns` starts the last component of `p`: it sits right after the
/// last separator, or at the front when there is none.
pub open spec fn is_name_start(p: Seq<char>, ns: int) -> bool {
    &&& 0 <= ns <= p.len()
    &&& (ns == 0 || p[ns - 1] == '/')
    &&& forall|j: int| ns <= j < p.len() ==> p[j] != '/'
}

/// Only one position can start the last component.
proof fn lemma_name_start_unique(p: Seq<char>, n1: int, n2: int)
    requires
        is_name_start(p, n1),
        is_name_start(p, n2),
    ensures
        n1 == n2,
{
    if n1 < n2 {
        assert(p[n2 - 1] != '/');
    }
    if n2 < n1 {
        assert(p[n1 - 1] != '/');
    }
}

/// The file stem of a path: the last component, without its extension when
/// it has one.
pub open spec fn spec_file_stem(p: Seq<char>) -> Seq<char> {
    let ns = choose|ns: int| is_name_start(p, ns);
    if exists|ns2: int| is_name_start(p, ns2) {
        match crate::parser_registry::ext_of(p) {
            Some(_) => {
                let d = choose|d: int| crate::parser_registry::is_ext_dot(p, d);
                p.subrange(ns, d)
            },
            None => p.subrange(ns, p.len() as int),
        }
    } else {
        p
    }
}

/// The file stem of a path: the last component without its extension.
fn file_stem_of(path: &str) -> (r: String)
    ensures
        r@ == spec_file_stem(path@),
{
    let v = crate::text::str_chars(path);
    let n = v.len();
    let mut name_start: usize = 0;
    let mut i: usize = 0;
    while i < n
        invariant
            0 <= name_start <= i <= n,
            n == path@.len(),
            v@ == path@,
            name_start == 0 || path@[name_start - 1] == '/',
            forall|j: int| name_start <= j < i ==> path@[j] != '/',
        decreases n - i,
    {
        if v[i] == '/' {
            name_start = i + 1;
        }
        i += 1;
    }
    proof {
        assert(is_name_start(path@, name_start as int));
        let ns2 = choose|ns2: int| is_name_start(path@, ns2);
        lemma_name_start_unique(path@, ns2, name_start as int);
    }
    let mut stem_end: usize = n;
    let mut j: usize = n;
    while j > name_start
        invariant
            name_start <= j <= n,
            name_start <= stem_end <= n,
            n == path@.len(),
            v@ == path@,
            is_name_start(path@, name_start as int),
            stem_end == n ==> forall|idx: int|
                j <= idx < n ==> !(path@[idx] == '.' && idx > name_start),
            stem_end < n ==> path@[stem_end as int] == '.' && stem_end > name_start
                && stem_end >= j && forall|idx: int|
                stem_end < idx < n ==> path@[idx] != '.',
        decreases j,
    {
        let idx = j - 1;
        if v[idx] == '.' && idx > name_start && stem_end == n {
            stem_end = idx;
        }
        j = idx;
    }
    proof {
        if stem_end < n {
            assert(crate::parser_registry::is_ext_dot(path@, stem_end as int)) by {
                assert(path@[stem_end as int - 1] != '/');
                assert(forall|j2: int|
                    stem_end < j2 < n ==> path@[j2] != '.' && path@[j2] != '/');
            }
            let d2 = choose|d2: int| crate::parser_registry::is_ext_dot(path@, d2);
            crate::parser_registry::lemma_ext_dot_unique(path@, d2, stem_end as int);
        } else {
            assert forall|d: int| !crate::parser_registry::is_ext_dot(path@, d) by {
                if crate::parser_registry::is_ext_dot(path@, d) {
                    if d < name_start {
                        if name_start > 0 {
                            if d == name_start - 1 {
                                assert(path@[d] == '.');
                            } else {
                                assert(path@[name_start as int - 1] != '/');
                            }
                        }
                    } else {
                        if d == name_start {
                            if name_start == 0 {
                                assert(d > 0);
                            } else {
                                assert(path@[d - 1] != '/');
                            }
                        } else {
                            assert(!(path@[d] == '.' && d > name_start));
                        }
                    }
                }
            }
        }
        assert(spec_file_stem(path@) == path@.subrange(name_start as int, stem_end as int));
    }
    path.substring_char(name_start, stem_end).to_owned()
}

/// Append a neighbor's module stem when it differs from the symbol's own
/// module and is not already listed.
fn push_neighbor_module(
    b: &CodeGraphBackend,
    other: NodeId,
    own_module: &str,
    neighbors: &mut Vec<String>,
)
    ensures
        final(neighbors)@.map_values((|s: String| s@)) == ({
            let pre = old(neighbors)@.map_values((|s: String| s@));
            match b.graph.node_str_prop(other, "path"@) {
                Some(p) => {
                    let st = spec_file_stem(p);
                    if st != own_module@ && !pre.contains(st) {
                        pre.push(st)
                    } else {
                        pre
                    }
                },
                None => pre,
            }
        }),
{
    let ghost pre = neighbors@.map_values((|s: String| s@));
    match b.graph.get_node(other) {
        Ok(node) => {
            match node.properties.get_string("path") {
                Some(p) => {
                    let stem = file_stem_of(p.as_str());
                    let listed = vec_has_string(neighbors, stem.as_str());
                    proof {
                        assert(listed == pre.contains(stem@)) by {
                            if listed {
                                let j = choose|j: int|
                                    0 <= j < neighbors@.len() && (#[trigger] neighbors@[j])@
                                        == stem@;
                                assert(pre[j] == stem@);
                            }
                            if pre.contains(stem@) {
                                let j = choose|j: int| 0 <= j < pre.len() && pre[j] == stem@;
                                assert((neighbors@[j])@ == stem@);
                            }
                        }
                    }
                    if !crate::props::str_eq(stem.as_str(), own_module) && !listed {
                        neighbors.push(stem);
                        proof {
                            assert(neighbors@.map_values((|s: String| s@)) =~= pre.push(
                                neighbors@.last()@,
                            ));
                        }
                    }
                },
                None => {},
            }
        },
        Err(_) => {},
    }
}

/// Whether the list holds a string with this text.
fn vec_has_string(v: &Vec<String>, s: &str) -> (r: bool)
    ensures
        r == (exists|j: int| 0 <= j < v@.len() && (#[trigger] v@[j])@ == s@),
{
    let mut i: usize = 0;
    while i < v.len()
        invariant
            0 <= i <= v@.len(),
            forall|j: int| 0 <= j < i ==> (#[trigger] v@[j])@ != s@,
        decreases v@.len() - i,
    {
        if crate::props::str_eq(v[i].as_str(), s) {
            return true;
        }
        i += 1;
    }
    false
}

} // verus!
