//! Symbol indexing for fast lookups.
//!
//! Four secondary indices over the graph: by name, by file, by node kind, and
//! by position. The position index keeps, per file, a list of ranges sorted
//! ascending by `(start_line, start_col)`; position lookup returns the node
//! with the smallest enclosing range, earliest entry winning ties.

use vstd::prelude::*;

use crate::assoc::assoc_lookup;
use crate::assoc::assoc_unique;
use crate::assoc::assoc_find;
use crate::assoc::lemma_assoc_lookup_at;
use crate::assoc::lemma_assoc_lookup_none;
use crate::assoc::lemma_assoc_lookup_push_other;
use crate::assoc::lemma_assoc_lookup_remove_other;
use crate::assoc::lemma_assoc_lookup_update;
use crate::assoc::lemma_assoc_unique_push;
use crate::assoc::lemma_assoc_unique_remove;
use crate::assoc::lemma_assoc_unique_update;
use crate::graph::CodeGraph;
use crate::graph::NodeId;
use crate::parser_api::FileInfo;
use crate::props::PropertyMap;
use crate::protocol::Position;
use crate::protocol::Range;

verus! {

/// An internal source range: 1-indexed lines, 0-indexed columns.
#[derive(Clone, Copy, Debug, PartialEq, Eq, Structural)]
pub struct IndexRange {
    pub start_line: u32,
    pub start_col: u32,
    pub end_line: u32,
    pub end_col: u32,
}

impl IndexRange {
    /// Whether the range contains the position `(line, col)`.
    pub open spec fn spec_contains(self, line: u32, col: u32) -> bool {
        &&& self.start_line <= line <= self.end_line
        &&& (line == self.start_line ==> col >= self.start_col)
        &&& (line == self.end_line ==> col <= self.end_col)
    }

    /// Whether the range contains the position `(line, col)`.
    pub fn contains(&self, line: u32, col: u32) -> (r: bool)
        ensures
            r == self.spec_contains(line, col),
    {
        if line < self.start_line || line > self.end_line {
            return false;
        }
        if line == self.start_line && col < self.start_col {
            return false;
        }
        if line == self.end_line && col > self.end_col {
            return false;
        }
        true
    }

    /// The size used to pick the innermost of several enclosing ranges:
    /// line span weighted by ten thousand, plus column span.
    pub open spec fn spec_size(self) -> int {
        (self.end_line - self.start_line) * 10000 + (self.end_col - self.start_col)
    }

    /// The size used to pick the innermost of several enclosing ranges.
    pub fn size(&self) -> (r: i64)
        ensures
            r == self.spec_size(),
    {
        (self.end_line as i64 - self.start_line as i64) * 10000 + (self.end_col as i64
            - self.start_col as i64)
    }

    /// The same range in editor coordinates (0-indexed lines).
    pub open spec fn spec_to_lsp(self) -> Range {
        Range {
            start: Position {
                line: if self.start_line >= 1 {
                    (self.start_line - 1) as u32
                } else {
                    0
                },
                character: self.start_col,
            },
            end: Position {
                line: if self.end_line >= 1 {
                    (self.end_line - 1) as u32
                } else {
                    0
                },
                character: self.end_col,
            },
        }
    }

    /// Convert to an editor range (0-indexed lines).
    pub fn to_lsp_range(&self) -> (r: Range)
        ensures
            r == self.spec_to_lsp(),
    {
        Range {
            start: Position {
                line: if self.start_line >= 1 {
                    self.start_line - 1
                } else {
                    0
                },
                character: self.start_col,
            },
            end: Position {
                line: if self.end_line >= 1 {
                    self.end_line - 1
                } else {
                    0
                },
                character: self.end_col,
            },
        }
    }

    /// The internal range of an editor range (1-indexed lines).
    pub open spec fn spec_from_lsp(r: Range) -> IndexRange {
        IndexRange {
            start_line: (r.start.line + 1) as u32,
            start_col: r.start.character,
            end_line: (r.end.line + 1) as u32,
            end_col: r.end.character,
        }
    }

    /// Convert an editor range back to an internal range.
    pub fn from_lsp_range(r: Range) -> (out: IndexRange)
        requires
            r.start.line < u32::MAX,
            r.end.line < u32::MAX,
        ensures
            out == IndexRange::spec_from_lsp(r),
    {
        IndexRange {
            start_line: r.start.line + 1,
            start_col: r.start.character,
            end_line: r.end.line + 1,
            end_col: r.end.character,
        }
    }

    /// Converting a stored range to editor coordinates and back yields the
    /// same range. Stored ranges carry 1-indexed lines, so both line fields
    /// are at least one.
    pub proof fn lemma_lsp_round_trip(self)
        requires
            self.start_line >= 1,
            self.end_line >= 1,
        ensures
            IndexRange::spec_from_lsp(self.spec_to_lsp()) == self,
    {
    }
}

/// Extract the range recorded in a node's properties, when all four fields
/// are present and fit the coordinate type.
pub open spec fn spec_extract_range(properties: PropertyMap) -> Option<IndexRange> {
    match (
        properties.spec_get_int("start_line"@),
        properties.spec_get_int("start_col"@),
        properties.spec_get_int("end_line"@),
        properties.spec_get_int("end_col"@),
    ) {
        (Some(sl), Some(sc), Some(el), Some(ec)) => {
            if 0 <= sl <= u32::MAX && 0 <= sc <= u32::MAX && 0 <= el <= u32::MAX && 0 <= ec
                <= u32::MAX {
                Some(
                    IndexRange {
                        start_line: sl as u32,
                        start_col: sc as u32,
                        end_line: el as u32,
                        end_col: ec as u32,
                    },
                )
            } else {
                None
            }
        },
        _ => None,
    }
}

// ==========================================
// Bucket tables
// ==========================================

/// The ids of one bucket of a string-keyed bucket table, as a sequence.
pub open spec fn bucket_view(s: Seq<(String, Vec<NodeId>)>, key: Seq<char>) -> Option<Seq<NodeId>> {
    match assoc_lookup(s, key) {
        Some(v) => Some(v@),
        None => None,
    }
}

/// The ids of one bucket, or the empty sequence when the bucket is absent.
pub open spec fn bucket_or_empty(s: Seq<(String, Vec<NodeId>)>, key: Seq<char>) -> Seq<NodeId> {
    match bucket_view(s, key) {
        Some(b) => b,
        None => Seq::empty(),
    }
}

/// A bucket after dropping a set of ids: absent when nothing remains.
pub open spec fn spec_purge(opt: Option<Seq<NodeId>>, removed: Seq<NodeId>) -> Option<
    Seq<NodeId>,
> {
    match opt {
        Some(b) => {
            let f = b.filter(|id: NodeId| !removed.contains(id));
            if f.len() == 0 {
                None
            } else {
                Some(f)
            }
        },
        None => None,
    }
}

/// A bucket after appending a list of ids: created when ids arrive for a
/// missing bucket, untouched when no id arrives.
pub open spec fn spec_combine(opt: Option<Seq<NodeId>>, added: Seq<NodeId>) -> Option<
    Seq<NodeId>,
> {
    if added.len() > 0 {
        Some(
            (match opt {
                Some(b) => b,
                None => Seq::empty(),
            }) + added,
        )
    } else {
        opt
    }
}

/// Whether `v` holds `id`.
fn contains_id(v: &Vec<NodeId>, id: NodeId) -> (r: bool)
    ensures
        r == v@.contains(id),
{
    let n = v.len();
    let mut i: usize = 0;
    while i < n
        invariant
            0 <= i <= n,
            n == v@.len(),
            forall|j: int| 0 <= j < i ==> v@[j] != id,
        decreases n - i,
    {
        if v[i] == id {
            return true;
        }
        i += 1;
    }
    false
}

/// The ids of `v` that are not listed in `removed`, in order.
fn filter_ids(v: &Vec<NodeId>, removed: &Vec<NodeId>) -> (r: Vec<NodeId>)
    ensures
        r@ == v@.filter(|id: NodeId| !removed@.contains(id)),
{
    let ghost pred = |id: NodeId| !removed@.contains(id);
    let n = v.len();
    let mut r: Vec<NodeId> = Vec::new();
    let mut i: usize = 0;
    proof {
        reveal(Seq::filter);
        assert(v@.take(0).filter(pred) =~= Seq::<NodeId>::empty());
    }
    while i < n
        invariant
            0 <= i <= n,
            n == v@.len(),
            r@ == v@.take(i as int).filter((|id: NodeId| !removed@.contains(id))),
        decreases n - i,
    {
        let keep = !contains_id(removed, v[i]);
        proof {
            reveal(Seq::filter);
            assert(v@.take(i as int + 1).drop_last() =~= v@.take(i as int));
            assert(v@.take(i as int + 1).last() == v@[i as int]);
        }
        if keep {
            r.push(v[i]);
        }
        i += 1;
    }
    proof {
        assert(v@.take(n as int) =~= v@);
    }
    r
}

/// Append `id` to the bucket of `key`, creating the bucket if needed.
fn bucket_push(entries: &mut Vec<(String, Vec<NodeId>)>, key: &str, id: NodeId)
    requires
        assoc_unique(old(entries)@),
    ensures
        assoc_unique(final(entries)@),
        bucket_view(final(entries)@, key@) == Some(bucket_or_empty(old(entries)@, key@).push(id)),
        forall|nm: Seq<char>|
            nm != key@ ==> #[trigger] bucket_view(final(entries)@, nm) == bucket_view(
                old(entries)@,
                nm,
            ),
{
    let ghost orig = entries@;
    match assoc_find(entries, key) {
        Some(i) => {
            let (k, mut v) = entries.remove(i);
            v.push(id);
            let ghost e = (k, v);
            entries.insert(i, (k, v));
            proof {
                assert(entries@ =~= orig.update(i as int, e));
                lemma_assoc_unique_update(orig, i as int, e);
                lemma_assoc_lookup_update(orig, i as int, e, key@);
                assert forall|nm: Seq<char>| nm != key@ implies #[trigger] bucket_view(
                    entries@,
                    nm,
                ) == bucket_view(orig, nm) by {
                    lemma_assoc_lookup_update(orig, i as int, e, nm);
                }
                lemma_assoc_lookup_at(orig, key@, i as int);
            }
        },
        None => {
            let mut nv: Vec<NodeId> = Vec::new();
            nv.push(id);
            entries.push((key.to_owned(), nv));
            proof {
                assert(entries@.last().0@ == key@);
                assert(entries@ =~= orig.push(entries@.last()));
                lemma_assoc_unique_push(orig, entries@.last());
                lemma_assoc_lookup_at(entries@, key@, orig.len() as int);
                lemma_assoc_lookup_none(orig, key@);
                assert(bucket_or_empty(orig, key@) =~= Seq::<NodeId>::empty());
                assert(entries@.last().1@ =~= bucket_or_empty(orig, key@).push(id));
                assert forall|nm: Seq<char>| nm != key@ implies #[trigger] bucket_view(
                    entries@,
                    nm,
                ) == bucket_view(orig, nm) by {
                    lemma_assoc_lookup_push_other(orig, entries@.last(), nm);
                }
            }
        },
    }
}

/// Drop the listed ids from every bucket, and drop buckets left empty.
fn purge_buckets(entries: &mut Vec<(String, Vec<NodeId>)>, removed: &Vec<NodeId>)
    requires
        assoc_unique(old(entries)@),
    ensures
        assoc_unique(final(entries)@),
        forall|nm: Seq<char>|
            #[trigger] bucket_view(final(entries)@, nm) == spec_purge(
                bucket_view(old(entries)@, nm),
                removed@,
            ),
{
    let ghost orig = entries@;
    let n = entries.len();
    let mut out: Vec<(String, Vec<NodeId>)> = Vec::new();
    let mut i: usize = 0;
    proof {
        assert(orig.take(0) =~= Seq::<(String, Vec<NodeId>)>::empty());
        assert forall|nm: Seq<char>| #[trigger] bucket_view(out@, nm) == spec_purge(
            bucket_view(orig.take(0), nm),
            removed@,
        ) by {
            lemma_assoc_lookup_none(out@, nm);
            lemma_assoc_lookup_none(orig.take(0), nm);
        }
    }
    while i < n
        invariant
            0 <= i <= n,
            n == orig.len(),
            entries@ == orig,
            assoc_unique(orig),
            assoc_unique(out@),
            forall|nm: Seq<char>|
                #[trigger] bucket_view(out@, nm) == spec_purge(
                    bucket_view(orig.take(i as int), nm),
                    removed@,
                ),
        decreases n - i,
    {
        let ghost pre = out@;
        let ghost cur = orig[i as int];
        let filtered = filter_ids(&entries[i].1, removed);
        proof {
            assert(orig.take(i as int + 1) =~= orig.take(i as int).push(cur));
            lemma_assoc_lookup_none(orig.take(i as int), cur.0@);
            lemma_assoc_lookup_at(orig.take(i as int + 1), cur.0@, i as int);
            assert forall|nm: Seq<char>| nm != cur.0@ implies #[trigger] bucket_view(
                orig.take(i as int + 1),
                nm,
            ) == bucket_view(orig.take(i as int), nm) by {
                lemma_assoc_lookup_push_other(orig.take(i as int), cur, nm);
            }
        }
        if filtered.len() > 0 {
            let key = entries[i].0.clone();
            proof {
                assert(bucket_view(pre, cur.0@) is None);
                crate::assoc::lemma_assoc_none_no_key(pre, cur.0@);
                lemma_assoc_unique_push(pre, (key, filtered));
            }
            out.push((key, filtered));
            proof {
                assert(out@ =~= pre.push((key, filtered)));
                lemma_assoc_lookup_at(out@, cur.0@, pre.len() as int);
                assert forall|nm: Seq<char>| nm != cur.0@ implies #[trigger] bucket_view(
                    out@,
                    nm,
                ) == bucket_view(pre, nm) by {
                    lemma_assoc_lookup_push_other(pre, (key, filtered), nm);
                }
            }
        }
        i += 1;
    }
    proof {
        assert(orig.take(n as int) =~= orig);
    }
    *entries = out;
}

/// Extract the range recorded in a node's properties.
pub fn extract_range(properties: &PropertyMap) -> (r: Option<IndexRange>)
    ensures
        r == spec_extract_range(*properties),
{
    let sl = properties.get_int("start_line");
    let sc = properties.get_int("start_col");
    let el = properties.get_int("end_line");
    let ec = properties.get_int("end_col");
    match (sl, sc, el, ec) {
        (Some(sl), Some(sc), Some(el), Some(ec)) => {
            let max = u32::MAX as i64;
            if 0 <= sl && sl <= max && 0 <= sc && sc <= max && 0 <= el && el <= max && 0 <= ec
                && ec <= max {
                Some(
                    IndexRange {
                        start_line: sl as u32,
                        start_col: sc as u32,
                        end_line: el as u32,
                        end_col: ec as u32,
                    },
                )
            } else {
                None
            }
        },
        _ => None,
    }
}

// ==========================================
// Position ordering and innermost selection
// ==========================================

/// Strict order on position entries by `(start_line, start_col)`.
pub open spec fn pos_key_lt(a: (IndexRange, NodeId), b: (IndexRange, NodeId)) -> bool {
    a.0.start_line < b.0.start_line || (a.0.start_line == b.0.start_line && a.0.start_col
        < b.0.start_col)
}

/// Nondecreasing by `(start_line, start_col)`.
pub open spec fn pos_sorted(s: Seq<(IndexRange, NodeId)>) -> bool {
    forall|i: int, j: int| 0 <= i < j < s.len() ==> !pos_key_lt(#[trigger] s[j], #[trigger] s[i])
}

/// Where a stable insertion sort places `e`: before the first strictly
/// greater entry, after every equal one.
pub open spec fn insert_pos(s: Seq<(IndexRange, NodeId)>, e: (IndexRange, NodeId)) -> int
    decreases s.len(),
{
    if s.len() == 0 {
        0
    } else if pos_key_lt(e, s[0]) {
        0
    } else {
        1 + insert_pos(s.drop_first(), e)
    }
}

/// One step of insertion sort.
pub open spec fn sorted_insert(s: Seq<(IndexRange, NodeId)>, e: (IndexRange, NodeId)) -> Seq<
    (IndexRange, NodeId),
> {
    s.insert(insert_pos(s, e), e)
}

/// The first `n` entries of `s`, insertion-sorted in order.
pub open spec fn sort_upto(s: Seq<(IndexRange, NodeId)>, n: int) -> Seq<(IndexRange, NodeId)>
    decreases n,
{
    if n <= 0 {
        Seq::empty()
    } else {
        sorted_insert(sort_upto(s, n - 1), s[n - 1])
    }
}

/// The whole of `s`, insertion-sorted.
pub open spec fn spec_sort(s: Seq<(IndexRange, NodeId)>) -> Seq<(IndexRange, NodeId)> {
    sort_upto(s, s.len() as int)
}

/// The insertion point lies within the sequence.
proof fn lemma_insert_pos_range(s: Seq<(IndexRange, NodeId)>, e: (IndexRange, NodeId))
    ensures
        0 <= insert_pos(s, e) <= s.len(),
    decreases s.len(),
{
    if s.len() > 0 && !pos_key_lt(e, s[0]) {
        lemma_insert_pos_range(s.drop_first(), e);
    }
}

/// The entries before the insertion point are not greater than `e`, and the
/// entry at it (if any) is strictly greater.
proof fn lemma_insert_pos_props(s: Seq<(IndexRange, NodeId)>, e: (IndexRange, NodeId))
    ensures
        forall|m: int| 0 <= m < insert_pos(s, e) ==> !pos_key_lt(e, #[trigger] s[m]),
        insert_pos(s, e) < s.len() ==> pos_key_lt(e, s[insert_pos(s, e)]),
    decreases s.len(),
{
    lemma_insert_pos_range(s, e);
    if s.len() > 0 && !pos_key_lt(e, s[0]) {
        lemma_insert_pos_range(s.drop_first(), e);
        lemma_insert_pos_props(s.drop_first(), e);
        assert(forall|m: int| 1 <= m < s.len() ==> s[m] == s.drop_first()[m - 1]);
    }
}

/// Inserting at the insertion point keeps the sequence sorted, adds exactly
/// `e`, and keeps the other entries.
proof fn lemma_sorted_insert(s: Seq<(IndexRange, NodeId)>, e: (IndexRange, NodeId))
    requires
        pos_sorted(s),
    ensures
        pos_sorted(sorted_insert(s, e)),
        sorted_insert(s, e).len() == s.len() + 1,
        sorted_insert(s, e).contains(e),
        forall|k: int|
            0 <= k < sorted_insert(s, e).len() ==> (#[trigger] sorted_insert(s, e)[k] == e
                || s.contains(sorted_insert(s, e)[k])),
{
    let ip = insert_pos(s, e);
    lemma_insert_pos_range(s, e);
    lemma_insert_pos_props(s, e);
    s.insert_ensures(ip, e);
    let r = sorted_insert(s, e);
    assert(r[ip] == e);
    assert forall|i: int, j: int| 0 <= i < j < r.len() implies !pos_key_lt(r[j], r[i]) by {
        if i < ip && j < ip {
        } else if i < ip && j == ip {
            assert(r[i] == s[i]);
        } else if i < ip && j > ip {
            assert(r[i] == s[i] && r[j] == s[j - 1]);
        } else if i == ip && j > ip {
            assert(r[j] == s[j - 1]);
            assert(pos_key_lt(e, s[ip]));
            assert(!pos_key_lt(s[j - 1], s[ip]) || j - 1 == ip);
        } else if i > ip {
            assert(r[i] == s[i - 1] && r[j] == s[j - 1]);
        }
    }
    assert forall|k: int| 0 <= k < r.len() implies (r[k] == e || s.contains(r[k])) by {
        if k < ip {
            assert(r[k] == s[k]);
        } else if k > ip {
            assert(r[k] == s[k - 1]);
        }
    }
    assert(r.contains(e)) by {
        assert(r[ip] == e);
    }
}

/// The innermost entry containing `(line, col)`: smallest size, earliest
/// entry on ties.
pub open spec fn spec_best(s: Seq<(IndexRange, NodeId)>, line: u32, col: u32) -> Option<
    (IndexRange, NodeId),
>
    decreases s.len(),
{
    if s.len() == 0 {
        None
    } else {
        let pre = spec_best(s.drop_last(), line, col);
        let e = s.last();
        if e.0.spec_contains(line, col) && (pre is None || e.0.spec_size()
            < pre.unwrap().0.spec_size()) {
            Some(e)
        } else {
            pre
        }
    }
}

/// When nothing is selected, no entry contains the position.
pub proof fn lemma_best_none_rev(s: Seq<(IndexRange, NodeId)>, line: u32, col: u32)
    requires
        spec_best(s, line, col) is None,
    ensures
        forall|k: int| 0 <= k < s.len() ==> !(#[trigger] s[k]).0.spec_contains(line, col),
    decreases s.len(),
{
    if s.len() > 0 {
        lemma_best_none_rev(s.drop_last(), line, col);
        assert(forall|k: int| 0 <= k < s.len() - 1 ==> s[k] == s.drop_last()[k]);
        assert(s[s.len() - 1] == s.last());
    }
}

/// When no entry contains the position, nothing is selected.
pub proof fn lemma_best_none(s: Seq<(IndexRange, NodeId)>, line: u32, col: u32)
    requires
        forall|k: int| 0 <= k < s.len() ==> !(#[trigger] s[k]).0.spec_contains(line, col),
    ensures
        spec_best(s, line, col) is None,
    decreases s.len(),
{
    if s.len() > 0 {
        lemma_best_none(s.drop_last(), line, col);
    }
}

/// What is selected contains the position, is one of the entries, and no
/// containing entry is strictly smaller.
pub proof fn lemma_best_props(s: Seq<(IndexRange, NodeId)>, line: u32, col: u32)
    requires
        spec_best(s, line, col) is Some,
    ensures
        spec_best(s, line, col).unwrap().0.spec_contains(line, col),
        s.contains(spec_best(s, line, col).unwrap()),
        forall|k: int|
            0 <= k < s.len() && (#[trigger] s[k]).0.spec_contains(line, col) ==> spec_best(
                s,
                line,
                col,
            ).unwrap().0.spec_size() <= s[k].0.spec_size(),
    decreases s.len(),
{
    let e = s.last();
    let pre = spec_best(s.drop_last(), line, col);
    if s.len() > 0 {
        if pre is None {
            lemma_best_none_rev(s.drop_last(), line, col);
        }
        if pre is Some {
            lemma_best_props(s.drop_last(), line, col);
            assert(s.drop_last().contains(pre.unwrap()) ==> s.contains(pre.unwrap())) by {
                if s.drop_last().contains(pre.unwrap()) {
                    let w = choose|w: int|
                        0 <= w < s.drop_last().len() && s.drop_last()[w] == pre.unwrap();
                    assert(s[w] == pre.unwrap());
                }
            }
        }
        assert(s.contains(e)) by {
            assert(s[s.len() - 1] == e);
        }
        assert(forall|k: int| 0 <= k < s.len() - 1 ==> s[k] == s.drop_last()[k]);
    }
}

// ==========================================
// Indexed ids and derived buckets
// ==========================================

/// Whether `id` names a live node recorded under `path`.
pub open spec fn admitted(g: CodeGraph, path: Seq<char>, id: NodeId) -> bool {
    g.has_node(id) && g.node_str_prop(id, "path"@) == Some(path)
}

/// The name recorded on node `id`, if any.
pub open spec fn name_of(g: CodeGraph, id: NodeId) -> Option<Seq<char>> {
    if g.has_node(id) {
        g.node_at(id).properties.spec_get_str("name"@)
    } else {
        None
    }
}

/// The kind name recorded on node `id`.
pub open spec fn kind_of(g: CodeGraph, id: NodeId) -> Seq<char>
    recommends
        g.has_node(id),
{
    g.node_at(id).node_type.spec_kind_name()
}

/// The first `n` listed ids that are admitted, first occurrence only.
pub open spec fn indexed_ids_upto(ids: Seq<NodeId>, g: CodeGraph, path: Seq<char>, n: int) -> Seq<
    NodeId,
>
    decreases n,
{
    if n <= 0 {
        Seq::empty()
    } else {
        let pre = indexed_ids_upto(ids, g, path, n - 1);
        let id = ids[n - 1];
        if !pre.contains(id) && admitted(g, path, id) {
            pre.push(id)
        } else {
            pre
        }
    }
}

/// The listed ids that are admitted, deduplicated, in listing order.
pub open spec fn indexed_ids(ids: Seq<NodeId>, g: CodeGraph, path: Seq<char>) -> Seq<NodeId> {
    indexed_ids_upto(ids, g, path, ids.len() as int)
}

/// The indexed ids carrying the name `nm`, in order.
pub open spec fn added_names(g: CodeGraph, ids: Seq<NodeId>, nm: Seq<char>) -> Seq<NodeId> {
    ids.filter(|id: NodeId| name_of(g, id) == Some(nm))
}

/// The indexed ids of kind `t`, in order.
pub open spec fn added_types(g: CodeGraph, ids: Seq<NodeId>, t: Seq<char>) -> Seq<NodeId> {
    ids.filter(|id: NodeId| g.has_node(id) && kind_of(g, id) == t)
}

/// The position entry one id contributes, if its node records a range.
pub open spec fn pos_entry_of(g: CodeGraph, id: NodeId) -> Option<(IndexRange, NodeId)> {
    if g.has_node(id) {
        match spec_extract_range(g.node_at(id).properties) {
            Some(r) => Some((r, id)),
            None => None,
        }
    } else {
        None
    }
}

/// The position entries of the indexed ids, in order.
pub open spec fn pos_entries(g: CodeGraph, ids: Seq<NodeId>) -> Seq<(IndexRange, NodeId)> {
    ids.filter_map(|id: NodeId| pos_entry_of(g, id))
}

/// One more id appends its name to the name selection when it matches.
proof fn lemma_added_names_take_succ(g: CodeGraph, ids: Seq<NodeId>, i: int, nm: Seq<char>)
    requires
        0 <= i < ids.len(),
    ensures
        added_names(g, ids.take(i + 1), nm) == if name_of(g, ids[i]) == Some(nm) {
            added_names(g, ids.take(i), nm).push(ids[i])
        } else {
            added_names(g, ids.take(i), nm)
        },
{
    reveal(Seq::filter);
    assert(ids.take(i + 1).drop_last() =~= ids.take(i));
    assert(ids.take(i + 1).last() == ids[i]);
    if name_of(g, ids[i]) == Some(nm) {
        assert(added_names(g, ids.take(i + 1), nm) =~= added_names(g, ids.take(i), nm).push(
            ids[i],
        ));
    }
}

/// One more id appends to the kind selection when it matches.
proof fn lemma_added_types_take_succ(g: CodeGraph, ids: Seq<NodeId>, i: int, t: Seq<char>)
    requires
        0 <= i < ids.len(),
    ensures
        added_types(g, ids.take(i + 1), t) == if g.has_node(ids[i]) && kind_of(g, ids[i]) == t {
            added_types(g, ids.take(i), t).push(ids[i])
        } else {
            added_types(g, ids.take(i), t)
        },
{
    reveal(Seq::filter);
    assert(ids.take(i + 1).drop_last() =~= ids.take(i));
    assert(ids.take(i + 1).last() == ids[i]);
    if g.has_node(ids[i]) && kind_of(g, ids[i]) == t {
        assert(added_types(g, ids.take(i + 1), t) =~= added_types(g, ids.take(i), t).push(
            ids[i],
        ));
    }
}

/// One more id appends its position entry when its node records a range.
proof fn lemma_pos_entries_take_succ(g: CodeGraph, ids: Seq<NodeId>, i: int)
    requires
        0 <= i < ids.len(),
    ensures
        pos_entries(g, ids.take(i + 1)) == match pos_entry_of(g, ids[i]) {
            Some(e) => pos_entries(g, ids.take(i)).push(e),
            None => pos_entries(g, ids.take(i)),
        },
{
    assert(ids.take(i + 1).drop_last() =~= ids.take(i));
    assert(ids.take(i + 1).last() == ids[i]);
    match pos_entry_of(g, ids[i]) {
        Some(e) => {
            assert(pos_entries(g, ids.take(i + 1)) =~= pos_entries(g, ids.take(i)).push(e));
        },
        None => {},
    }
}

/// A filter that keeps everything returns its input.
proof fn lemma_filter_all_true<A>(s: Seq<A>, pred: spec_fn(A) -> bool)
    requires
        forall|j: int| 0 <= j < s.len() ==> pred(#[trigger] s[j]),
    ensures
        s.filter(pred) == s,
    decreases s.len(),
{
    reveal(Seq::filter);
    if s.len() > 0 {
        lemma_filter_all_true(s.drop_last(), pred);
        assert(s.filter(pred) =~= s);
    } else {
        assert(s.filter(pred) =~= s);
    }
}

/// Every id the indexing pass keeps is admitted, and kept only once.
proof fn lemma_indexed_admitted(ids: Seq<NodeId>, g: CodeGraph, path: Seq<char>, n: int)
    ensures
        forall|k: int|
            0 <= k < indexed_ids_upto(ids, g, path, n).len() ==> admitted(
                g,
                path,
                #[trigger] indexed_ids_upto(ids, g, path, n)[k],
            ),
    decreases n,
{
    if n > 0 {
        lemma_indexed_admitted(ids, g, path, n - 1);
        let pre = indexed_ids_upto(ids, g, path, n - 1);
        let cur = indexed_ids_upto(ids, g, path, n);
        assert(forall|k: int| 0 <= k < pre.len() ==> cur[k] == pre[k]);
    }
}

/// Where the insertion scan stops is where the insertion sort places the
/// entry.
proof fn lemma_insert_pos_char(s: Seq<(IndexRange, NodeId)>, e: (IndexRange, NodeId), j: int)
    requires
        0 <= j <= s.len(),
        forall|m: int| 0 <= m < j ==> !pos_key_lt(e, #[trigger] s[m]),
        j < s.len() ==> pos_key_lt(e, s[j]),
    ensures
        insert_pos(s, e) == j,
    decreases j,
{
    if j == 0 {
    } else {
        assert(!pos_key_lt(e, s[0]));
        assert(forall|m: int| 1 <= m < s.len() ==> s[m] == s.drop_first()[m - 1]);
        lemma_insert_pos_char(s.drop_first(), e, j - 1);
    }
}

/// Compare two position entries by `(start_line, start_col)`.
fn pos_lt(a: &(IndexRange, NodeId), b: &(IndexRange, NodeId)) -> (r: bool)
    ensures
        r == pos_key_lt(*a, *b),
{
    a.0.start_line < b.0.start_line || (a.0.start_line == b.0.start_line && a.0.start_col
        < b.0.start_col)
}

/// Insertion-sort position entries by `(start_line, start_col)`, keeping
/// equal keys in arrival order.
fn sort_positions(entries: Vec<(IndexRange, NodeId)>) -> (r: Vec<(IndexRange, NodeId)>)
    ensures
        r@ == spec_sort(entries@),
        pos_sorted(r@),
        forall|k: int| 0 <= k < r@.len() ==> entries@.contains(#[trigger] r@[k]),
{
    let n = entries.len();
    let mut r: Vec<(IndexRange, NodeId)> = Vec::new();
    let mut i: usize = 0;
    while i < n
        invariant
            0 <= i <= n,
            n == entries@.len(),
            r@ == sort_upto(entries@, i as int),
            pos_sorted(r@),
            forall|k: int| 0 <= k < r@.len() ==> entries@.take(i as int).contains(#[trigger] r@[k]),
        decreases n - i,
    {
        let e = entries[i];
        let m = r.len();
        let mut j: usize = 0;
        while j < m && !pos_lt(&e, &r[j])
            invariant
                0 <= j <= m,
                m == r@.len(),
                forall|q: int| 0 <= q < j ==> !pos_key_lt(e, #[trigger] r@[q]),
            decreases m - j,
        {
            j += 1;
        }
        proof {
            lemma_insert_pos_char(r@, e, j as int);
            lemma_sorted_insert(r@, e);
            assert(entries@.take(i as int + 1).drop_last() =~= entries@.take(i as int));
        }
        let ghost pre = r@;
        r.insert(j, e);
        proof {
            assert(r@ == sorted_insert(pre, e));
            assert(r@ == sort_upto(entries@, i as int + 1));
            assert(entries@.take(i as int + 1).last() == e);
            assert forall|k: int| 0 <= k < r@.len() implies entries@.take(i as int + 1).contains(
                #[trigger] r@[k],
            ) by {
                if r@[k] == e {
                    assert(entries@.take(i as int + 1)[i as int] == e);
                } else {
                    assert(pre.contains(r@[k]));
                    let w = choose|w: int| 0 <= w < pre.len() && pre[w] == r@[k];
                    assert(entries@.take(i as int).contains(pre[w]));
                    let w2 = choose|w2: int|
                        0 <= w2 < entries@.take(i as int).len() && entries@.take(i as int)[w2]
                            == pre[w];
                    assert(entries@.take(i as int + 1)[w2] == pre[w]);
                }
            }
        }
        i += 1;
    }
    proof {
        assert(entries@.take(n as int) =~= entries@);
    }
    r
}

/// The ids of `info` that are live in `g` and recorded under `path`,
/// deduplicated, in listing order.
fn collect_indexed(info: &FileInfo, g: &CodeGraph, path: &str) -> (r: Vec<NodeId>)
    ensures
        r@ == indexed_ids(info.symbol_ids(), *g, path@),
{
    let all = info.all_symbol_ids();
    let n = all.len();
    let mut r: Vec<NodeId> = Vec::new();
    let mut i: usize = 0;
    while i < n
        invariant
            0 <= i <= n,
            n == all@.len(),
            all@ == info.symbol_ids(),
            r@ == indexed_ids_upto(all@, *g, path@, i as int),
        decreases n - i,
    {
        let id = all[i];
        let dup = contains_id(&r, id);
        let mut admit_ok = false;
        if !dup {
            match g.get_node(id) {
                Ok(node) => {
                    match node.properties.get_string("path") {
                        Some(p) => {
                            if crate::props::str_eq(p.as_str(), path) {
                                admit_ok = true;
                            }
                        },
                        None => {},
                    }
                },
                Err(_) => {},
            }
        }
        proof {
            assert(!dup ==> admit_ok == admitted(*g, path@, id));
        }
        if admit_ok {
            r.push(id);
        }
        proof {
            assert(r@ == indexed_ids_upto(all@, *g, path@, i as int + 1));
        }
        i += 1;
    }
    r
}

/// Append each id to the bucket of its recorded name, in order.
fn index_names(table: &mut Vec<(String, Vec<NodeId>)>, ids: &Vec<NodeId>, g: &CodeGraph)
    requires
        assoc_unique(old(table)@),
    ensures
        assoc_unique(final(table)@),
        forall|nm: Seq<char>|
            #[trigger] bucket_view(final(table)@, nm) == spec_combine(
                bucket_view(old(table)@, nm),
                added_names(*g, ids@, nm),
            ),
{
    let ghost orig = table@;
    let ghost pred_of = |nm: Seq<char>| (|id: NodeId| name_of(*g, id) == Some(nm));
    let n = ids.len();
    let mut i: usize = 0;
    proof {
        assert forall|nm: Seq<char>| #[trigger] bucket_view(table@, nm) == spec_combine(
            bucket_view(orig, nm),
            added_names(*g, ids@.take(0), nm),
        ) by {
            assert(ids@.take(0) =~= Seq::<NodeId>::empty());
            assert(ids@.take(0).filter((|id: NodeId| name_of(*g, id) == Some(nm)))
                =~= Seq::<NodeId>::empty());
        }
    }
    while i < n
        invariant
            0 <= i <= n,
            n == ids@.len(),
            assoc_unique(table@),
            forall|nm: Seq<char>|
                #[trigger] bucket_view(table@, nm) == spec_combine(
                    bucket_view(orig, nm),
                    added_names(*g, ids@.take(i as int), nm),
                ),
        decreases n - i,
    {
        let id = ids[i];
        let ghost before = table@;
        let ghost mut pushed: Option<Seq<char>> = None;
        match g.get_node(id) {
            Ok(node) => {
                match node.properties.get_string("name") {
                    Some(nm) => {
                        let key = nm.clone();
                        bucket_push(table, key.as_str(), id);
                        proof {
                            pushed = Some(key@);
                            assert(name_of(*g, id) == Some(key@));
                        }
                    },
                    None => {
                        proof {
                            assert(name_of(*g, id) is None);
                        }
                    },
                }
            },
            Err(_) => {
                proof {
                    assert(name_of(*g, id) is None);
                }
            },
        }
        proof {
            assert forall|nm: Seq<char>| #[trigger] bucket_view(table@, nm) == spec_combine(
                bucket_view(orig, nm),
                added_names(*g, ids@.take(i as int + 1), nm),
            ) by {
                lemma_added_names_take_succ(*g, ids@, i as int, nm);
                let before_added = added_names(*g, ids@.take(i as int), nm);
                let after_added = added_names(*g, ids@.take(i as int + 1), nm);
                match pushed {
                    Some(pnm) => {
                        if nm == pnm {
                            assert(after_added == before_added.push(id));
                            assert(bucket_view(table@, nm) == Some(
                                bucket_or_empty(before, nm).push(id),
                            ));
                            assert(bucket_or_empty(before, nm) =~= bucket_or_empty(orig, nm)
                                + before_added) by {
                                assert(bucket_view(before, nm) == spec_combine(
                                    bucket_view(orig, nm),
                                    before_added,
                                ));
                                if before_added.len() == 0 {
                                    assert(bucket_or_empty(orig, nm) + before_added
                                        =~= bucket_or_empty(orig, nm));
                                }
                            }
                            assert((bucket_or_empty(orig, nm) + before_added).push(id)
                                =~= bucket_or_empty(orig, nm) + after_added);
                        } else {
                            assert(after_added == before_added);
                            assert(bucket_view(table@, nm) == bucket_view(before, nm));
                        }
                    },
                    None => {
                        assert(after_added == before_added);
                        assert(bucket_view(table@, nm) == bucket_view(before, nm));
                    },
                }
            }
        }
        i += 1;
    }
    proof {
        assert(ids@.take(n as int) =~= ids@);
    }
}

/// Append each id to the bucket of its kind, in order.
fn index_types(table: &mut Vec<(String, Vec<NodeId>)>, ids: &Vec<NodeId>, g: &CodeGraph)
    requires
        assoc_unique(old(table)@),
    ensures
        assoc_unique(final(table)@),
        forall|t: Seq<char>|
            #[trigger] bucket_view(final(table)@, t) == spec_combine(
                bucket_view(old(table)@, t),
                added_types(*g, ids@, t),
            ),
{
    let ghost orig = table@;
    let n = ids.len();
    let mut i: usize = 0;
    proof {
        assert forall|t: Seq<char>| #[trigger] bucket_view(table@, t) == spec_combine(
            bucket_view(orig, t),
            added_types(*g, ids@.take(0), t),
        ) by {
            assert(ids@.take(0).filter(
                (|id: NodeId| g.has_node(id) && kind_of(*g, id) == t),
            ) =~= Seq::<NodeId>::empty());
        }
    }
    while i < n
        invariant
            0 <= i <= n,
            n == ids@.len(),
            assoc_unique(table@),
            forall|t: Seq<char>|
                #[trigger] bucket_view(table@, t) == spec_combine(
                    bucket_view(orig, t),
                    added_types(*g, ids@.take(i as int), t),
                ),
        decreases n - i,
    {
        let id = ids[i];
        let ghost before = table@;
        let ghost mut pushed: Option<Seq<char>> = None;
        match g.get_node(id) {
            Ok(node) => {
                let key = node.node_type.kind_name();
                bucket_push(table, key, id);
                proof {
                    pushed = Some(key@);
                    assert(g.has_node(id) && kind_of(*g, id) == key@);
                }
            },
            Err(_) => {
                proof {
                    assert(!g.has_node(id));
                }
            },
        }
        proof {
            assert forall|t: Seq<char>| #[trigger] bucket_view(table@, t) == spec_combine(
                bucket_view(orig, t),
                added_types(*g, ids@.take(i as int + 1), t),
            ) by {
                lemma_added_types_take_succ(*g, ids@, i as int, t);
                let before_added = added_types(*g, ids@.take(i as int), t);
                let after_added = added_types(*g, ids@.take(i as int + 1), t);
                match pushed {
                    Some(pt) => {
                        if t == pt {
                            assert(after_added == before_added.push(id));
                            assert(bucket_view(table@, t) == Some(
                                bucket_or_empty(before, t).push(id),
                            ));
                            assert(bucket_or_empty(before, t) =~= bucket_or_empty(orig, t)
                                + before_added) by {
                                assert(bucket_view(before, t) == spec_combine(
                                    bucket_view(orig, t),
                                    before_added,
                                ));
                                if before_added.len() == 0 {
                                    assert(bucket_or_empty(orig, t) + before_added
                                        =~= bucket_or_empty(orig, t));
                                }
                            }
                            assert((bucket_or_empty(orig, t) + before_added).push(id)
                                =~= bucket_or_empty(orig, t) + after_added);
                        } else {
                            assert(after_added == before_added);
                            assert(bucket_view(table@, t) == bucket_view(before, t));
                        }
                    },
                    None => {
                        assert(after_added == before_added);
                        assert(bucket_view(table@, t) == bucket_view(before, t));
                    },
                }
            }
        }
        i += 1;
    }
    proof {
        assert(ids@.take(n as int) =~= ids@);
    }
}

/// The position entries of the given ids, in order.
fn build_positions(ids: &Vec<NodeId>, g: &CodeGraph) -> (r: Vec<(IndexRange, NodeId)>)
    ensures
        r@ == pos_entries(*g, ids@),
{
    let n = ids.len();
    let mut r: Vec<(IndexRange, NodeId)> = Vec::new();
    let mut i: usize = 0;
    proof {
        assert(ids@.take(0) =~= Seq::<NodeId>::empty());
        assert(pos_entries(*g, ids@.take(0)) =~= Seq::<(IndexRange, NodeId)>::empty());
    }
    while i < n
        invariant
            0 <= i <= n,
            n == ids@.len(),
            r@ == pos_entries(*g, ids@.take(i as int)),
        decreases n - i,
    {
        let id = ids[i];
        proof {
            lemma_pos_entries_take_succ(*g, ids@, i as int);
        }
        match g.get_node(id) {
            Ok(node) => {
                match extract_range(&node.properties) {
                    Some(rg) => {
                        r.push((rg, id));
                        proof {
                            assert(pos_entry_of(*g, id) == Some((rg, id)));
                        }
                    },
                    None => {},
                }
            },
            Err(_) => {},
        }
        i += 1;
    }
    proof {
        assert(ids@.take(n as int) =~= ids@);
    }
    r
}

/// The range of the first position entry naming `id`, if any.
pub open spec fn spec_first_range(es: Seq<(IndexRange, NodeId)>, id: NodeId) -> Option<IndexRange>
    decreases es.len(),
{
    if es.len() == 0 {
        None
    } else if es[0].1 == id {
        Some(es[0].0)
    } else {
        spec_first_range(es.drop_first(), id)
    }
}

/// The number of ids held by the first `n` buckets of a table.
pub open spec fn name_count_upto(s: Seq<(String, Vec<NodeId>)>, n: int) -> int
    decreases n,
{
    if n <= 0 {
        0
    } else {
        name_count_upto(s, n - 1) + s[n - 1].1@.len()
    }
}

/// The number of ids held by a whole table.
pub open spec fn name_count(s: Seq<(String, Vec<NodeId>)>) -> int {
    name_count_upto(s, s.len() as int)
}

/// Bucket counts only grow with the prefix.
proof fn lemma_name_count_mono(s: Seq<(String, Vec<NodeId>)>, n: int)
    requires
        0 <= n,
    ensures
        name_count_upto(s, n) <= name_count_upto(s, n + 1),
        name_count_upto(s, n) >= 0,
    decreases n,
{
    if n > 0 {
        lemma_name_count_mono(s, n - 1);
    }
}

impl Default for SymbolIndex {
    /// An empty index.
    fn default() -> (r: SymbolIndex)
        ensures
            r.wf(),
            forall|nm: Seq<char>| #[trigger] r.name_bucket(nm) is None,
            forall|p: Seq<char>| #[trigger] r.file_bucket(p) is None,
            forall|t: Seq<char>| #[trigger] r.type_bucket(t) is None,
            forall|p: Seq<char>| #[trigger] r.pos_bucket(p) is None,
    {
        SymbolIndex::new()
    }
}

/// Copy a list of ids.
fn copy_ids(v: &Vec<NodeId>) -> (r: Vec<NodeId>)
    ensures
        r@ == v@,
{
    let n = v.len();
    let mut r: Vec<NodeId> = Vec::new();
    let mut i: usize = 0;
    while i < n
        invariant
            0 <= i <= n,
            n == v@.len(),
            r@ == v@.take(i as int),
        decreases n - i,
    {
        r.push(v[i]);
        proof {
            assert(r@ =~= v@.take(i as int + 1));
        }
        i += 1;
    }
    proof {
        assert(v@.take(n as int) =~= v@);
    }
    r
}

// ==========================================
// The symbol index
// ==========================================

/// Secondary indices over the graph.
pub struct SymbolIndex {
    by_name: Vec<(String, Vec<NodeId>)>,
    by_file: Vec<(String, Vec<NodeId>)>,
    by_type: Vec<(String, Vec<NodeId>)>,
    by_position: Vec<(String, Vec<(IndexRange, NodeId)>)>,
}

/// Index statistics.
pub struct IndexStats {
    pub total_symbols: usize,
    pub total_files: usize,
    pub unique_names: usize,
}

impl SymbolIndex {
    /// The name table.
    pub closed spec fn names_table(self) -> Seq<(String, Vec<NodeId>)> {
        self.by_name@
    }

    /// The file table.
    pub closed spec fn files_table(self) -> Seq<(String, Vec<NodeId>)> {
        self.by_file@
    }

    /// The kind table.
    pub closed spec fn types_table(self) -> Seq<(String, Vec<NodeId>)> {
        self.by_type@
    }

    /// The position table.
    pub closed spec fn positions_table(self) -> Seq<(String, Vec<(IndexRange, NodeId)>)> {
        self.by_position@
    }

    /// The ids indexed under a name.
    pub open spec fn name_bucket(self, nm: Seq<char>) -> Option<Seq<NodeId>> {
        bucket_view(self.names_table(), nm)
    }

    /// The ids indexed under a file path.
    pub open spec fn file_bucket(self, p: Seq<char>) -> Option<Seq<NodeId>> {
        bucket_view(self.files_table(), p)
    }

    /// The ids indexed under a kind name.
    pub open spec fn type_bucket(self, t: Seq<char>) -> Option<Seq<NodeId>> {
        bucket_view(self.types_table(), t)
    }

    /// The position entries indexed under a file path.
    pub open spec fn pos_bucket(self, p: Seq<char>) -> Option<Seq<(IndexRange, NodeId)>> {
        match assoc_lookup(self.positions_table(), p) {
            Some(v) => Some(v@),
            None => None,
        }
    }

    /// Tables have unique keys, name and kind buckets are nonempty, and
    /// every position bucket is sorted by `(start_line, start_col)`.
    pub open spec fn wf(self) -> bool {
        &&& assoc_unique(self.names_table())
        &&& assoc_unique(self.files_table())
        &&& assoc_unique(self.types_table())
        &&& assoc_unique(self.positions_table())
        &&& forall|nm: Seq<char>| (#[trigger] self.name_bucket(nm)) matches Some(b) ==> b.len() > 0
        &&& forall|t: Seq<char>| (#[trigger] self.type_bucket(t)) matches Some(b) ==> b.len() > 0
        &&& forall|p: Seq<char>| (#[trigger] self.pos_bucket(p)) matches Some(b) ==> pos_sorted(b)
    }

    /// Whether `id` appears in the file bucket of its own path.
    pub open spec fn id_filed(self, g: CodeGraph, id: NodeId) -> bool {
        match g.node_str_prop(id, "path"@) {
            Some(p) => match self.file_bucket(p) {
                Some(b) => b.contains(id),
                None => false,
            },
            None => false,
        }
    }

    /// Every indexed id names a live node whose recorded path, name, and
    /// kind agree with the bucket holding it, and every id of a name or
    /// kind bucket is also filed under its path.
    pub open spec fn consistent_with(self, g: CodeGraph) -> bool {
        &&& forall|p: Seq<char>|
            (#[trigger] self.file_bucket(p)) matches Some(ids) ==> forall|k: int|
                0 <= k < ids.len() ==> admitted(g, p, #[trigger] ids[k])
        &&& forall|nm: Seq<char>|
            (#[trigger] self.name_bucket(nm)) matches Some(ids) ==> forall|k: int|
                0 <= k < ids.len() ==> name_of(g, #[trigger] ids[k]) == Some(nm) && self.id_filed(
                    g,
                    ids[k],
                )
        &&& forall|t: Seq<char>|
            (#[trigger] self.type_bucket(t)) matches Some(ids) ==> forall|k: int|
                0 <= k < ids.len() ==> g.has_node(#[trigger] ids[k]) && kind_of(g, ids[k]) == t
                    && self.id_filed(g, ids[k])
        &&& forall|p: Seq<char>|
            (#[trigger] self.pos_bucket(p)) matches Some(es) ==> forall|k: int|
                0 <= k < es.len() ==> admitted(g, p, (#[trigger] es[k]).1) && spec_extract_range(
                    g.node_at(es[k].1).properties,
                ) == Some(es[k].0)
    }

    /// An empty index.
    pub fn new() -> (r: SymbolIndex)
        ensures
            r.wf(),
            forall|nm: Seq<char>| #[trigger] r.name_bucket(nm) is None,
            forall|p: Seq<char>| #[trigger] r.file_bucket(p) is None,
            forall|t: Seq<char>| #[trigger] r.type_bucket(t) is None,
            forall|p: Seq<char>| #[trigger] r.pos_bucket(p) is None,
            forall|g: CodeGraph| #[trigger] r.consistent_with(g),
    {
        let r = SymbolIndex {
            by_name: Vec::new(),
            by_file: Vec::new(),
            by_type: Vec::new(),
            by_position: Vec::new(),
        };
        r
    }

    /// Drop a file's symbols: its file and position buckets go away, and its
    /// ids are dropped from every name and kind bucket.
    pub fn remove_file(&mut self, path: &str)
        requires
            old(self).wf(),
        ensures
            final(self).wf(),
            final(self).file_bucket(path@) is None,
            final(self).pos_bucket(path@) is None,
            forall|q: Seq<char>|
                q != path@ ==> #[trigger] final(self).file_bucket(q) == old(self).file_bucket(q),
            forall|q: Seq<char>|
                q != path@ ==> #[trigger] final(self).pos_bucket(q) == old(self).pos_bucket(q),
            forall|nm: Seq<char>|
                #[trigger] final(self).name_bucket(nm) == spec_purge(
                    old(self).name_bucket(nm),
                    bucket_or_empty(old(self).files_table(), path@),
                ),
            forall|t: Seq<char>|
                #[trigger] final(self).type_bucket(t) == spec_purge(
                    old(self).type_bucket(t),
                    bucket_or_empty(old(self).files_table(), path@),
                ),
            forall|g: CodeGraph|
                old(self).consistent_with(g) ==> #[trigger] final(self).consistent_with(g),
    {
        broadcast use vstd::seq_lib::group_filter_ensures;

        let ghost orig = *self;
        let ghost removed_spec = bucket_or_empty(old(self).files_table(), path@);
        match assoc_find(&self.by_file, path) {
            Some(i) => {
                let ghost ftab = self.by_file@;
                let entry = self.by_file.remove(i);
                proof {
                    lemma_assoc_unique_remove(ftab, i as int);
                    lemma_assoc_lookup_at(ftab, path@, i as int);
                    assert(entry.1@ == removed_spec);
                    assert(forall|j: int|
                        0 <= j < self.by_file@.len() ==> (#[trigger] self.by_file@[j]).0@ != path@);
                    lemma_assoc_lookup_none(self.by_file@, path@);
                    assert forall|q: Seq<char>| q != path@ implies #[trigger] bucket_view(
                        self.by_file@,
                        q,
                    ) == bucket_view(ftab, q) by {
                        lemma_assoc_lookup_remove_other(ftab, i as int, q);
                    }
                }
                let removed = entry.1;
                purge_buckets(&mut self.by_name, &removed);
                purge_buckets(&mut self.by_type, &removed);
            },
            None => {
                proof {
                    lemma_assoc_lookup_none(self.by_file@, path@);
                    assert(removed_spec =~= Seq::<NodeId>::empty());
                    assert forall|nm: Seq<char>| #[trigger] bucket_view(self.by_name@, nm)
                        == spec_purge(bucket_view(orig.names_table(), nm), removed_spec) by {
                        assert(orig.name_bucket(nm) == bucket_view(self.by_name@, nm));
                        match bucket_view(self.by_name@, nm) {
                            Some(b) => {
                                lemma_filter_all_true(
                                    b,
                                    |id: NodeId| !removed_spec.contains(id),
                                );
                                assert(b.len() > 0);
                            },
                            None => {},
                        }
                    }
                    assert forall|t: Seq<char>| #[trigger] bucket_view(self.by_type@, t)
                        == spec_purge(bucket_view(orig.types_table(), t), removed_spec) by {
                        assert(orig.type_bucket(t) == bucket_view(self.by_type@, t));
                        match bucket_view(self.by_type@, t) {
                            Some(b) => {
                                lemma_filter_all_true(
                                    b,
                                    |id: NodeId| !removed_spec.contains(id),
                                );
                                assert(b.len() > 0);
                            },
                            None => {},
                        }
                    }
                }
            },
        }
        match assoc_find(&self.by_position, path) {
            Some(i) => {
                let ghost ptab = self.by_position@;
                self.by_position.remove(i);
                proof {
                    lemma_assoc_unique_remove(ptab, i as int);
                    assert(forall|j: int|
                        0 <= j < self.by_position@.len() ==> (
                        #[trigger] self.by_position@[j]).0@ != path@);
                    lemma_assoc_lookup_none(self.by_position@, path@);
                    assert forall|q: Seq<char>| q != path@ implies assoc_lookup(
                        self.by_position@,
                        q,
                    ) == assoc_lookup(ptab, q) by {
                        lemma_assoc_lookup_remove_other(ptab, i as int, q);
                    }
                }
            },
            None => {
                proof {
                    lemma_assoc_lookup_none(self.by_position@, path@);
                }
            },
        }
        proof {
            let fin = *self;
            assert(fin.wf()) by {
                assert forall|nm: Seq<char>|
                    ((#[trigger] fin.name_bucket(nm)) matches Some(b) ==> b.len() > 0) by {
                    assert(fin.name_bucket(nm) == spec_purge(orig.name_bucket(nm), removed_spec));
                }
                assert forall|t: Seq<char>|
                    ((#[trigger] fin.type_bucket(t)) matches Some(b) ==> b.len() > 0) by {
                    assert(fin.type_bucket(t) == spec_purge(orig.type_bucket(t), removed_spec));
                }
                assert forall|p: Seq<char>|
                    ((#[trigger] fin.pos_bucket(p)) matches Some(b) ==> pos_sorted(b)) by {
                    if p != path@ {
                        assert(fin.pos_bucket(p) == orig.pos_bucket(p));
                    }
                }
            }
            assert forall|g: CodeGraph| orig.consistent_with(g) implies #[trigger] fin
                .consistent_with(g) by {
                assert forall|p: Seq<char>|
                    ((#[trigger] fin.file_bucket(p)) matches Some(ids) ==> forall|k: int|
                        0 <= k < ids.len() ==> admitted(g, p, #[trigger] ids[k])) by {
                    if fin.file_bucket(p) is Some {
                        assert(p != path@);
                        assert(fin.file_bucket(p) == orig.file_bucket(p));
                    }
                }
                assert forall|nm: Seq<char>|
                    ((#[trigger] fin.name_bucket(nm)) matches Some(ids) ==> forall|k: int|
                        0 <= k < ids.len() ==> name_of(g, #[trigger] ids[k]) == Some(nm)
                            && fin.id_filed(g, ids[k])) by {
                    if fin.name_bucket(nm) is Some {
                    let ids = fin.name_bucket(nm).unwrap();
                    let orig_ids = orig.name_bucket(nm).unwrap();
                    assert forall|k: int| 0 <= k < ids.len() implies name_of(g, #[trigger] ids[k])
                        == Some(nm) && fin.id_filed(g, ids[k]) by {
                        assert(ids == orig_ids.filter(
                            |id: NodeId| !removed_spec.contains(id),
                        ));
                        assert(ids.contains(ids[k]));
                        orig_ids.lemma_filter_contains_rev(
                            |id: NodeId| !removed_spec.contains(id),
                            ids[k],
                        );
                        assert(orig_ids.contains(ids[k]));
                        assert(!removed_spec.contains(ids[k]));
                        let w = choose|w: int|
                            0 <= w < orig_ids.len() && orig_ids[w] == ids[k];
                        assert(name_of(g, ids[k]) == Some(nm) && orig.id_filed(g, ids[k]));
                        let p = g.node_str_prop(ids[k], "path"@).unwrap();
                        assert(orig.file_bucket(p).unwrap().contains(ids[k]));
                        assert(p != path@) by {
                            if p == path@ {
                                assert(removed_spec.contains(ids[k]));
                            }
                        }
                        assert(fin.file_bucket(p) == orig.file_bucket(p));
                    }
                    }
                }
                assert forall|t: Seq<char>|
                    ((#[trigger] fin.type_bucket(t)) matches Some(ids) ==> forall|k: int|
                        0 <= k < ids.len() ==> g.has_node(#[trigger] ids[k]) && kind_of(g, ids[k])
                            == t && fin.id_filed(g, ids[k])) by {
                    if fin.type_bucket(t) is Some {
                    let ids = fin.type_bucket(t).unwrap();
                    let orig_ids = orig.type_bucket(t).unwrap();
                    assert forall|k: int| 0 <= k < ids.len() implies g.has_node(#[trigger] ids[k])
                        && kind_of(g, ids[k]) == t && fin.id_filed(g, ids[k]) by {
                        assert(ids == orig_ids.filter(
                            |id: NodeId| !removed_spec.contains(id),
                        ));
                        assert(ids.contains(ids[k]));
                        orig_ids.lemma_filter_contains_rev(
                            |id: NodeId| !removed_spec.contains(id),
                            ids[k],
                        );
                        assert(orig_ids.contains(ids[k]));
                        assert(!removed_spec.contains(ids[k]));
                        let w = choose|w: int|
                            0 <= w < orig_ids.len() && orig_ids[w] == ids[k];
                        assert(g.has_node(ids[k]) && kind_of(g, ids[k]) == t && orig.id_filed(
                            g,
                            ids[k],
                        ));
                        let p = g.node_str_prop(ids[k], "path"@).unwrap();
                        assert(orig.file_bucket(p).unwrap().contains(ids[k]));
                        assert(p != path@) by {
                            if p == path@ {
                                assert(removed_spec.contains(ids[k]));
                            }
                        }
                        assert(fin.file_bucket(p) == orig.file_bucket(p));
                    }
                    }
                }
                assert forall|p: Seq<char>|
                    ((#[trigger] fin.pos_bucket(p)) matches Some(es) ==> forall|k: int|
                        0 <= k < es.len() ==> admitted(g, p, (#[trigger] es[k]).1)
                            && spec_extract_range(g.node_at(es[k].1).properties) == Some(
                            es[k].0,
                        )) by {
                    if fin.pos_bucket(p) is Some {
                        assert(p != path@);
                        assert(fin.pos_bucket(p) == orig.pos_bucket(p));
                    }
                }
            }
        }
    }

    /// Index a file's symbols: an atomic replacement of whatever was indexed
    /// for the path before. A listed id is indexed only when it names a live
    /// node recorded under this path; each id counts once.
    pub fn add_file(&mut self, path: &str, info: &FileInfo, graph: &CodeGraph)
        requires
            old(self).wf(),
        ensures
            final(self).wf(),
            final(self).file_bucket(path@) == Some(
                indexed_ids(info.symbol_ids(), *graph, path@),
            ),
            final(self).pos_bucket(path@) == Some(
                spec_sort(pos_entries(*graph, indexed_ids(info.symbol_ids(), *graph, path@))),
            ),
            forall|q: Seq<char>|
                q != path@ ==> #[trigger] final(self).file_bucket(q) == old(self).file_bucket(q),
            forall|q: Seq<char>|
                q != path@ ==> #[trigger] final(self).pos_bucket(q) == old(self).pos_bucket(q),
            forall|nm: Seq<char>|
                #[trigger] final(self).name_bucket(nm) == spec_combine(
                    spec_purge(
                        old(self).name_bucket(nm),
                        bucket_or_empty(old(self).files_table(), path@),
                    ),
                    added_names(*graph, indexed_ids(info.symbol_ids(), *graph, path@), nm),
                ),
            forall|t: Seq<char>|
                #[trigger] final(self).type_bucket(t) == spec_combine(
                    spec_purge(
                        old(self).type_bucket(t),
                        bucket_or_empty(old(self).files_table(), path@),
                    ),
                    added_types(*graph, indexed_ids(info.symbol_ids(), *graph, path@), t),
                ),
            SymbolIndex::add_file_rel(
                *old(self),
                *final(self),
                *graph,
                path@,
                info.symbol_ids(),
            ),
            old(self).consistent_with(*graph) ==> final(self).consistent_with(*graph),
    {
        broadcast use vstd::seq_lib::group_filter_ensures;

        self.remove_file(path);
        let ghost mid = *self;
        let file_nodes = collect_indexed(info, graph, path);
        let ghost idx = file_nodes@;
        proof {
            lemma_indexed_admitted(info.symbol_ids(), *graph, path@, info.symbol_ids().len() as int);
        }
        index_names(&mut self.by_name, &file_nodes, graph);
        index_types(&mut self.by_type, &file_nodes, graph);
        let positions = build_positions(&file_nodes, graph);
        let sorted = sort_positions(positions);
        let ghost ftab0 = self.by_file@;
        proof {
            assert(ftab0 == mid.files_table());
            crate::assoc::lemma_assoc_none_no_key(ftab0, path@);
        }
        self.by_file.push((path.to_owned(), file_nodes));
        proof {
            assert(self.by_file@.last().0@ == path@);
            assert(self.by_file@ =~= ftab0.push(self.by_file@.last()));
            lemma_assoc_unique_push(ftab0, self.by_file@.last());
            lemma_assoc_lookup_at(self.by_file@, path@, ftab0.len() as int);
            assert forall|q: Seq<char>| q != path@ implies #[trigger] bucket_view(
                self.by_file@,
                q,
            ) == bucket_view(ftab0, q) by {
                lemma_assoc_lookup_push_other(ftab0, self.by_file@.last(), q);
            }
        }
        let ghost ptab0 = self.by_position@;
        proof {
            assert(ptab0 == mid.positions_table());
            crate::assoc::lemma_assoc_none_no_key(ptab0, path@);
        }
        self.by_position.push((path.to_owned(), sorted));
        proof {
            assert(self.by_position@.last().0@ == path@);
            assert(self.by_position@ =~= ptab0.push(self.by_position@.last()));
            lemma_assoc_unique_push(ptab0, self.by_position@.last());
            lemma_assoc_lookup_at(self.by_position@, path@, ptab0.len() as int);
            assert forall|q: Seq<char>| q != path@ implies assoc_lookup(self.by_position@, q)
                == assoc_lookup(ptab0, q) by {
                lemma_assoc_lookup_push_other(ptab0, self.by_position@.last(), q);
            }
        }
        proof {
            let fin = *self;
            let orig = *old(self);
            assert(fin.file_bucket(path@) == Some(idx));
            assert(fin.pos_bucket(path@) == Some(spec_sort(pos_entries(*graph, idx))));
            assert forall|q: Seq<char>| q != path@ implies #[trigger] fin.file_bucket(q)
                == orig.file_bucket(q) by {
                assert(fin.file_bucket(q) == bucket_view(ftab0, q));
                assert(mid.file_bucket(q) == orig.file_bucket(q));
            }
            assert forall|q: Seq<char>| q != path@ implies #[trigger] fin.pos_bucket(q)
                == orig.pos_bucket(q) by {
                assert(assoc_lookup(fin.positions_table(), q) == assoc_lookup(ptab0, q));
                assert(mid.pos_bucket(q) == orig.pos_bucket(q));
            }
            assert forall|nm: Seq<char>| #[trigger] fin.name_bucket(nm) == spec_combine(
                spec_purge(
                    orig.name_bucket(nm),
                    bucket_or_empty(orig.files_table(), path@),
                ),
                added_names(*graph, idx, nm),
            ) by {
                assert(fin.name_bucket(nm) == spec_combine(
                    mid.name_bucket(nm),
                    added_names(*graph, idx, nm),
                ));
                assert(mid.name_bucket(nm) == spec_purge(
                    orig.name_bucket(nm),
                    bucket_or_empty(orig.files_table(), path@),
                ));
            }
            assert forall|t: Seq<char>| #[trigger] fin.type_bucket(t) == spec_combine(
                spec_purge(
                    orig.type_bucket(t),
                    bucket_or_empty(orig.files_table(), path@),
                ),
                added_types(*graph, idx, t),
            ) by {
                assert(fin.type_bucket(t) == spec_combine(
                    mid.type_bucket(t),
                    added_types(*graph, idx, t),
                ));
                assert(mid.type_bucket(t) == spec_purge(
                    orig.type_bucket(t),
                    bucket_or_empty(orig.files_table(), path@),
                ));
            }
            assert(fin.wf()) by {
                assert forall|nm: Seq<char>|
                    ((#[trigger] fin.name_bucket(nm)) matches Some(b) ==> b.len() > 0) by {
                    assert(fin.name_bucket(nm) == spec_combine(
                        mid.name_bucket(nm),
                        added_names(*graph, idx, nm),
                    ));
                    assert(mid.name_bucket(nm) matches Some(mb) ==> mb.len() > 0);
                }
                assert forall|t: Seq<char>|
                    ((#[trigger] fin.type_bucket(t)) matches Some(b) ==> b.len() > 0) by {
                    assert(fin.type_bucket(t) == spec_combine(
                        mid.type_bucket(t),
                        added_types(*graph, idx, t),
                    ));
                    assert(mid.type_bucket(t) matches Some(mb) ==> mb.len() > 0);
                }
                assert forall|p: Seq<char>|
                    ((#[trigger] fin.pos_bucket(p)) matches Some(b) ==> pos_sorted(b)) by {
                    if p != path@ {
                        assert(fin.pos_bucket(p) == mid.pos_bucket(p));
                        assert(mid.pos_bucket(p) matches Some(mb) ==> pos_sorted(mb));
                    }
                }
            }
            if orig.consistent_with(*graph) {
                assert(mid.consistent_with(*graph));
                assert forall|p: Seq<char>|
                    ((#[trigger] fin.file_bucket(p)) matches Some(ids) ==> forall|k: int|
                        0 <= k < ids.len() ==> admitted(*graph, p, #[trigger] ids[k])) by {
                    if p != path@ && fin.file_bucket(p) is Some {
                        assert(fin.file_bucket(p) == mid.file_bucket(p));
                        assert(mid.file_bucket(p) matches Some(ids2) ==> forall|k: int|
                            0 <= k < ids2.len() ==> admitted(*graph, p, #[trigger] ids2[k]));
                    }
                }
                assert forall|nm: Seq<char>|
                    ((#[trigger] fin.name_bucket(nm)) matches Some(ids) ==> forall|k: int|
                        0 <= k < ids.len() ==> name_of(*graph, #[trigger] ids[k]) == Some(nm)
                            && fin.id_filed(*graph, ids[k])) by {
                    if fin.name_bucket(nm) is Some {
                        let ids = fin.name_bucket(nm).unwrap();
                        let added = added_names(*graph, idx, nm);
                        let midpart = match mid.name_bucket(nm) {
                            Some(mb) => mb,
                            None => Seq::<NodeId>::empty(),
                        };
                        assert(fin.name_bucket(nm) == spec_combine(mid.name_bucket(nm), added));
                        assert forall|k: int| 0 <= k < ids.len() implies name_of(
                            *graph,
                            #[trigger] ids[k],
                        ) == Some(nm) && fin.id_filed(*graph, ids[k]) by {
                            if added.len() > 0 {
                                assert(ids == midpart + added);
                            } else {
                                assert(mid.name_bucket(nm) is Some && ids == midpart);
                                assert(ids =~= midpart + added);
                            }
                            if k < midpart.len() {
                                assert(mid.name_bucket(nm) is Some);
                                assert(ids[k] == midpart[k]);
                                assert(name_of(*graph, ids[k]) == Some(nm) && mid.id_filed(
                                    *graph,
                                    ids[k],
                                ));
                                let p2 = graph.node_str_prop(ids[k], "path"@).unwrap();
                                assert(mid.file_bucket(p2).unwrap().contains(ids[k]));
                                assert(p2 != path@);
                                assert(fin.file_bucket(p2) == mid.file_bucket(p2));
                            } else {
                                assert(ids[k] == added[k - midpart.len()]);
                                assert(added.contains(ids[k]));
                                idx.lemma_filter_contains_rev(
                                    |id: NodeId| name_of(*graph, id) == Some(nm),
                                    ids[k],
                                );
                                assert(idx.contains(ids[k]));
                                assert(admitted(*graph, path@, ids[k]));
                                assert(graph.node_str_prop(ids[k], "path"@) == Some(path@));
                                assert(fin.file_bucket(path@).unwrap().contains(ids[k]));
                            }
                        }
                    }
                }
                assert forall|t: Seq<char>|
                    ((#[trigger] fin.type_bucket(t)) matches Some(ids) ==> forall|k: int|
                        0 <= k < ids.len() ==> graph.has_node(#[trigger] ids[k]) && kind_of(
                            *graph,
                            ids[k],
                        ) == t && fin.id_filed(*graph, ids[k])) by {
                    if fin.type_bucket(t) is Some {
                        let ids = fin.type_bucket(t).unwrap();
                        let added = added_types(*graph, idx, t);
                        let midpart = match mid.type_bucket(t) {
                            Some(mb) => mb,
                            None => Seq::<NodeId>::empty(),
                        };
                        assert(fin.type_bucket(t) == spec_combine(mid.type_bucket(t), added));
                        assert forall|k: int| 0 <= k < ids.len() implies graph.has_node(
                            #[trigger] ids[k],
                        ) && kind_of(*graph, ids[k]) == t && fin.id_filed(*graph, ids[k]) by {
                            if added.len() > 0 {
                                assert(ids == midpart + added);
                            } else {
                                assert(mid.type_bucket(t) is Some && ids == midpart);
                                assert(ids =~= midpart + added);
                            }
                            if k < midpart.len() {
                                assert(mid.type_bucket(t) is Some);
                                assert(ids[k] == midpart[k]);
                                assert(graph.has_node(ids[k]) && kind_of(*graph, ids[k]) == t
                                    && mid.id_filed(*graph, ids[k]));
                                let p2 = graph.node_str_prop(ids[k], "path"@).unwrap();
                                assert(mid.file_bucket(p2).unwrap().contains(ids[k]));
                                assert(p2 != path@);
                                assert(fin.file_bucket(p2) == mid.file_bucket(p2));
                            } else {
                                assert(ids[k] == added[k - midpart.len()]);
                                assert(added.contains(ids[k]));
                                idx.lemma_filter_contains_rev(
                                    |id: NodeId| graph.has_node(id) && kind_of(*graph, id) == t,
                                    ids[k],
                                );
                                assert(idx.contains(ids[k]));
                                assert(admitted(*graph, path@, ids[k]));
                                assert(fin.file_bucket(path@).unwrap().contains(ids[k]));
                            }
                        }
                    }
                }
                assert forall|p: Seq<char>|
                    ((#[trigger] fin.pos_bucket(p)) matches Some(es) ==> forall|k: int|
                        0 <= k < es.len() ==> admitted(*graph, p, (#[trigger] es[k]).1)
                            && spec_extract_range(graph.node_at(es[k].1).properties) == Some(
                            es[k].0,
                        )) by {
                    if fin.pos_bucket(p) is Some {
                        if p != path@ {
                            assert(fin.pos_bucket(p) == mid.pos_bucket(p));
                            assert(mid.pos_bucket(p) matches Some(es2) ==> forall|k: int|
                                0 <= k < es2.len() ==> admitted(*graph, p, (#[trigger] es2[k]).1)
                                    && spec_extract_range(graph.node_at(es2[k].1).properties)
                                    == Some(es2[k].0));
                        } else {
                            let es = fin.pos_bucket(p).unwrap();
                            assert(es == sorted@);
                            assert forall|k: int| 0 <= k < es.len() implies admitted(
                                *graph,
                                p,
                                (#[trigger] es[k]).1,
                            ) && spec_extract_range(graph.node_at(es[k].1).properties) == Some(
                                es[k].0,
                            ) by {
                                assert(positions@.contains(es[k]));
                                idx.lemma_filter_map_contains(
                                    |id: NodeId| pos_entry_of(*graph, id),
                                    es[k],
                                );
                                let src = choose|src: NodeId|
                                    #[trigger] idx.contains(src) && pos_entry_of(*graph, src)
                                        == Some(es[k]);
                                assert(es[k].1 == src);
                                assert(admitted(*graph, path@, src));
                            }
                        }
                    }
                }
            }
        }
    }

    /// The node at `(line, col)` in `path`, innermost range winning;
    /// coordinates are 1-indexed lines and 0-indexed columns.
    pub fn find_at_position(&self, path: &str, line: u32, col: u32) -> (r: Option<NodeId>)
        ensures
            r == match self.pos_bucket(path@) {
                Some(es) => match spec_best(es, line, col) {
                    Some(e) => Some(e.1),
                    None => None::<NodeId>,
                },
                None => None::<NodeId>,
            },
    {
        match assoc_find(&self.by_position, path) {
            Some(bi) => {
                proof {
                    lemma_assoc_lookup_at(self.by_position@, path@, bi as int);
                }
                let entries = &self.by_position[bi].1;
                let n = entries.len();
                let mut best: Option<(IndexRange, NodeId)> = None;
                let mut i: usize = 0;
                proof {
                    assert(entries@.take(0) =~= Seq::<(IndexRange, NodeId)>::empty());
                }
                while i < n
                    invariant
                        0 <= i <= n,
                        n == entries@.len(),
                        best == spec_best(entries@.take(i as int), line, col),
                    decreases n - i,
                {
                    let e = entries[i];
                    proof {
                        assert(entries@.take(i as int + 1).drop_last() =~= entries@.take(i as int));
                        assert(entries@.take(i as int + 1).last() == e);
                    }
                    let better = e.0.contains(line, col) && (match &best {
                        Some(b) => e.0.size() < b.0.size(),
                        None => true,
                    });
                    if better {
                        best = Some(e);
                    }
                    i += 1;
                }
                proof {
                    assert(entries@.take(n as int) =~= entries@);
                }
                match best {
                    Some(b) => Some(b.1),
                    None => None,
                }
            },
            None => {
                proof {
                    lemma_assoc_lookup_none(self.by_position@, path@);
                }
                None
            },
        }
    }

    /// Every id indexed for a file, in indexing order; empty when the file
    /// is not indexed.
    pub fn get_file_symbols(&self, path: &str) -> (r: Vec<NodeId>)
        ensures
            r@ == bucket_or_empty(self.files_table(), path@),
    {
        match assoc_find(&self.by_file, path) {
            Some(i) => {
                proof {
                    lemma_assoc_lookup_at(self.by_file@, path@, i as int);
                }
                copy_ids(&self.by_file[i].1)
            },
            None => {
                proof {
                    lemma_assoc_lookup_none(self.by_file@, path@);
                }
                Vec::new()
            },
        }
    }

    /// Every id indexed under a kind name, in indexing order.
    pub fn get_by_type(&self, node_type: &str) -> (r: Vec<NodeId>)
        ensures
            r@ == bucket_or_empty(self.types_table(), node_type@),
    {
        match assoc_find(&self.by_type, node_type) {
            Some(i) => {
                proof {
                    lemma_assoc_lookup_at(self.by_type@, node_type@, i as int);
                }
                copy_ids(&self.by_type[i].1)
            },
            None => {
                proof {
                    lemma_assoc_lookup_none(self.by_type@, node_type@);
                }
                Vec::new()
            },
        }
    }

    /// The indexed range of a node in a file, if any: the first entry of the
    /// file's position bucket naming the node.
    pub fn get_node_range(&self, path: &str, node_id: NodeId) -> (r: Option<IndexRange>)
        ensures
            r == match self.pos_bucket(path@) {
                Some(es) => spec_first_range(es, node_id),
                None => None::<IndexRange>,
            },
    {
        match assoc_find(&self.by_position, path) {
            Some(bi) => {
                proof {
                    lemma_assoc_lookup_at(self.by_position@, path@, bi as int);
                }
                let entries = &self.by_position[bi].1;
                let n = entries.len();
                let mut i: usize = 0;
                proof {
                    assert(entries@.skip(0) =~= entries@);
                }
                while i < n
                    invariant
                        0 <= i <= n,
                        n == entries@.len(),
                        self.pos_bucket(path@) == Some(entries@),
                        spec_first_range(entries@, node_id) == spec_first_range(
                            entries@.skip(i as int),
                            node_id,
                        ),
                    decreases n - i,
                {
                    proof {
                        assert(entries@.skip(i as int)[0] == entries@[i as int]);
                        assert(entries@.skip(i as int).drop_first() =~= entries@.skip(
                            i as int + 1,
                        ));
                    }
                    if entries[i].1 == node_id {
                        proof {
                            assert(spec_first_range(entries@.skip(i as int), node_id) == Some(
                                entries@[i as int].0,
                            ));
                            assert(self.pos_bucket(path@) == Some(entries@));
                            assert(spec_first_range(entries@, node_id) == Some(
                                entries@[i as int].0,
                            ));
                        }
                        return Some(entries[i].0);
                    }
                    i += 1;
                }
                proof {
                    assert(entries@.skip(n as int) =~= Seq::<(IndexRange, NodeId)>::empty());
                }
                None
            },
            None => {
                proof {
                    lemma_assoc_lookup_none(self.by_position@, path@);
                }
                None
            },
        }
    }

    /// Index statistics: indexed ids summed over the name buckets
    /// (saturating), indexed files, and distinct names.
    pub fn stats(&self) -> (r: IndexStats)
        ensures
            r.total_files == self.files_table().len(),
            r.unique_names == self.names_table().len(),
            r.total_symbols as int == (if name_count(self.names_table()) <= usize::MAX as int {
                name_count(self.names_table())
            } else {
                usize::MAX as int
            }),
    {
        let n = self.by_name.len();
        let mut total: usize = 0;
        let mut i: usize = 0;
        while i < n
            invariant
                0 <= i <= n,
                n == self.by_name@.len(),
                total as int == (if name_count_upto(self.by_name@, i as int) <= usize::MAX as int {
                    name_count_upto(self.by_name@, i as int)
                } else {
                    usize::MAX as int
                }),
            decreases n - i,
        {
            let len = self.by_name[i].1.len();
            proof {
                lemma_name_count_mono(self.by_name@, i as int);
            }
            if total <= usize::MAX - len {
                total = total + len;
            } else {
                total = usize::MAX;
            }
            i += 1;
        }
        IndexStats { total_symbols: total, total_files: self.by_file.len(), unique_names: n }
    }

    /// The ids of every name bucket among the first `n` whose key contains
    /// the pattern, both folded to lower case, in table order.
    pub open spec fn search_upto(
        s: Seq<(String, Vec<NodeId>)>,
        pattern: Seq<char>,
        n: int,
    ) -> Seq<NodeId>
        decreases n,
    {
        if n <= 0 {
            Seq::empty()
        } else {
            let pre = SymbolIndex::search_upto(s, pattern, n - 1);
            if crate::text::contains_sub(
                crate::text::lower_of(s[n - 1].0@),
                crate::text::lower_of(pattern),
            ) {
                pre + s[n - 1].1@
            } else {
                pre
            }
        }
    }

    /// Every id indexed under a name containing the pattern, compared
    /// without regard to case.
    pub fn search_by_name(&self, pattern: &str) -> (r: Vec<NodeId>)
        ensures
            r@ == SymbolIndex::search_upto(
                self.names_table(),
                pattern@,
                self.names_table().len() as int,
            ),
    {
        let pattern_low = crate::text::lowercase(pattern);
        let pattern_chars = crate::text::str_chars(pattern_low.as_str());
        let n = self.by_name.len();
        let mut r: Vec<NodeId> = Vec::new();
        let mut k: usize = 0;
        while k < n
            invariant
                0 <= k <= n,
                n == self.by_name@.len(),
                pattern_chars@ == crate::text::lower_of(pattern@),
                r@ == SymbolIndex::search_upto(self.by_name@, pattern@, k as int),
            decreases n - k,
        {
            let key_low = crate::text::lowercase(self.by_name[k].0.as_str());
            let key_chars = crate::text::str_chars(key_low.as_str());
            if crate::text::chars_contain(&key_chars, &pattern_chars) {
                let mut ids = copy_ids(&self.by_name[k].1);
                r.append(&mut ids);
            }
            proof {
                assert(r@ == SymbolIndex::search_upto(self.by_name@, pattern@, k as int + 1));
            }
            k += 1;
        }
        r
    }

    /// Every id filed under a path names a live node recorded under that
    /// path.
    pub proof fn lemma_file_ids_live(self, g: CodeGraph, p: Seq<char>)
        requires
            self.consistent_with(g),
            self.file_bucket(p) is Some,
        ensures
            forall|k: int|
                0 <= k < self.file_bucket(p).unwrap().len() ==> admitted(
                    g,
                    p,
                    #[trigger] self.file_bucket(p).unwrap()[k],
                ),
    {
    }

    /// Every position bucket is sorted ascending by start line, then start
    /// column.
    pub proof fn lemma_positions_sorted(self, p: Seq<char>)
        requires
            self.wf(),
            self.pos_bucket(p) is Some,
        ensures
            pos_sorted(self.pos_bucket(p).unwrap()),
    {
    }

    /// Every id indexed under a name belongs to a live node recorded under
    /// that name.
    pub proof fn lemma_name_ids_named(self, g: CodeGraph, nm: Seq<char>)
        requires
            self.consistent_with(g),
            self.name_bucket(nm) is Some,
        ensures
            forall|k: int|
                0 <= k < self.name_bucket(nm).unwrap().len() ==> name_of(
                    g,
                    #[trigger] self.name_bucket(nm).unwrap()[k],
                ) == Some(nm),
    {
    }

    /// After a file is dropped, no surviving name or kind bucket holds an
    /// id recorded under its path: whatever survives the purge was filed
    /// under some other path.
    pub proof fn lemma_purge_drops_path_ids(self, g: CodeGraph, p: Seq<char>, key: Seq<char>)
        requires
            self.wf(),
            self.consistent_with(g),
        ensures
            (match spec_purge(self.name_bucket(key), bucket_or_empty(self.files_table(), p)) {
                Some(b) => forall|k: int|
                    0 <= k < b.len() ==> g.node_str_prop(#[trigger] b[k], "path"@) != Some(p),
                None => true,
            }),
            (match spec_purge(self.type_bucket(key), bucket_or_empty(self.files_table(), p)) {
                Some(b) => forall|k: int|
                    0 <= k < b.len() ==> g.node_str_prop(#[trigger] b[k], "path"@) != Some(p),
                None => true,
            }),
    {
        broadcast use vstd::seq_lib::group_filter_ensures;

        let removed = bucket_or_empty(self.files_table(), p);
        match spec_purge(self.name_bucket(key), removed) {
            Some(b) => {
                let orig_ids = self.name_bucket(key).unwrap();
                assert forall|k: int| 0 <= k < b.len() implies g.node_str_prop(
                    #[trigger] b[k],
                    "path"@,
                ) != Some(p) by {
                    assert(b.contains(b[k]));
                    orig_ids.lemma_filter_contains_rev(
                        |id: NodeId| !removed.contains(id),
                        b[k],
                    );
                    assert(orig_ids.contains(b[k]));
                    assert(!removed.contains(b[k]));
                    let w = choose|w: int| 0 <= w < orig_ids.len() && orig_ids[w] == b[k];
                    assert(name_of(g, b[k]) == Some(key) && self.id_filed(g, b[k]));
                    if g.node_str_prop(b[k], "path"@) == Some(p) {
                        assert(self.file_bucket(p).unwrap().contains(b[k]));
                    }
                }
            },
            None => {},
        }
        match spec_purge(self.type_bucket(key), removed) {
            Some(b) => {
                let orig_ids = self.type_bucket(key).unwrap();
                assert forall|k: int| 0 <= k < b.len() implies g.node_str_prop(
                    #[trigger] b[k],
                    "path"@,
                ) != Some(p) by {
                    assert(b.contains(b[k]));
                    orig_ids.lemma_filter_contains_rev(
                        |id: NodeId| !removed.contains(id),
                        b[k],
                    );
                    assert(orig_ids.contains(b[k]));
                    assert(!removed.contains(b[k]));
                    let w = choose|w: int| 0 <= w < orig_ids.len() && orig_ids[w] == b[k];
                    assert(g.has_node(b[k]) && kind_of(g, b[k]) == key && self.id_filed(g, b[k]));
                    if g.node_str_prop(b[k], "path"@) == Some(p) {
                        assert(self.file_bucket(p).unwrap().contains(b[k]));
                    }
                }
            },
            None => {},
        }
    }

    /// Indexing the same parse twice is the same as indexing it once:
    /// the second replacement removes exactly what the first inserted and
    /// re-inserts it, so every bucket of every table comes out unchanged.
    pub proof fn lemma_add_file_idempotent(
        s0: SymbolIndex,
        s1: SymbolIndex,
        s2: SymbolIndex,
        g: CodeGraph,
        p: Seq<char>,
        ids: Seq<NodeId>,
    )
        requires
            s0.wf(),
            s0.consistent_with(g),
            SymbolIndex::add_file_rel(s0, s1, g, p, ids),
            SymbolIndex::add_file_rel(s1, s2, g, p, ids),
        ensures
            forall|q: Seq<char>| #[trigger] s2.file_bucket(q) == s1.file_bucket(q),
            forall|q: Seq<char>| #[trigger] s2.pos_bucket(q) == s1.pos_bucket(q),
            forall|nm: Seq<char>| #[trigger] s2.name_bucket(nm) == s1.name_bucket(nm),
            forall|t: Seq<char>| #[trigger] s2.type_bucket(t) == s1.type_bucket(t),
    {
        broadcast use vstd::seq_lib::group_filter_ensures;

        let idx = indexed_ids(ids, g, p);
        lemma_indexed_admitted(ids, g, p, ids.len() as int);
        assert forall|q: Seq<char>| #[trigger] s2.file_bucket(q) == s1.file_bucket(q) by {
            if q != p {
                assert(s1.file_bucket(q) == s0.file_bucket(q));
                assert(s2.file_bucket(q) == s1.file_bucket(q));
            }
        }
        assert forall|q: Seq<char>| #[trigger] s2.pos_bucket(q) == s1.pos_bucket(q) by {
            if q != p {
                assert(s1.pos_bucket(q) == s0.pos_bucket(q));
                assert(s2.pos_bucket(q) == s1.pos_bucket(q));
            }
        }
        let removed2 = bucket_or_empty(s1.files_table(), p);
        assert(removed2 == idx);
        assert forall|nm: Seq<char>| #[trigger] s2.name_bucket(nm) == s1.name_bucket(nm) by {
            let removed0 = bucket_or_empty(s0.files_table(), p);
            let base = spec_purge(s0.name_bucket(nm), removed0);
            let added = added_names(g, idx, nm);
            assert(s1.name_bucket(nm) == spec_combine(base, added));
            assert(s2.name_bucket(nm) == spec_combine(
                spec_purge(s1.name_bucket(nm), idx),
                added,
            ));
            s0.lemma_purge_drops_path_ids(g, p, nm);
            assert forall|k: int| 0 <= k < added.len() implies idx.contains(
                #[trigger] added[k],
            ) by {
                assert(added.contains(added[k]));
                idx.lemma_filter_contains_rev(
                    |id: NodeId| name_of(g, id) == Some(nm),
                    added[k],
                );
            }
            SymbolIndex::lemma_purge_of_combined(base, added, idx, g, p);
            assert(spec_purge(s1.name_bucket(nm), idx) == base);
        }
        assert forall|t: Seq<char>| #[trigger] s2.type_bucket(t) == s1.type_bucket(t) by {
            let removed0 = bucket_or_empty(s0.files_table(), p);
            let base = spec_purge(s0.type_bucket(t), removed0);
            let added = added_types(g, idx, t);
            assert(s1.type_bucket(t) == spec_combine(base, added));
            assert(s2.type_bucket(t) == spec_combine(
                spec_purge(s1.type_bucket(t), idx),
                added,
            ));
            s0.lemma_purge_drops_path_ids(g, p, t);
            assert forall|k: int| 0 <= k < added.len() implies idx.contains(
                #[trigger] added[k],
            ) by {
                assert(added.contains(added[k]));
                idx.lemma_filter_contains_rev(
                    |id: NodeId| g.has_node(id) && kind_of(g, id) == t,
                    added[k],
                );
            }
            SymbolIndex::lemma_purge_of_combined(base, added, idx, g, p);
            assert(spec_purge(s1.type_bucket(t), idx) == base);
        }
    }

    /// Removing a freshly added selection restores the bucket it was added
    /// to, provided everything that survived the earlier purge lies under
    /// another path and everything added lies under this one.
    proof fn lemma_purge_of_combined(
        base: Option<Seq<NodeId>>,
        added: Seq<NodeId>,
        idx: Seq<NodeId>,
        g: CodeGraph,
        p: Seq<char>,
    )
        requires
            (match base {
                Some(b) => b.len() > 0 && forall|k: int|
                    0 <= k < b.len() ==> g.node_str_prop(#[trigger] b[k], "path"@) != Some(p),
                None => true,
            }),
            forall|k: int| 0 <= k < added.len() ==> idx.contains(#[trigger] added[k]),
            forall|k: int| 0 <= k < idx.len() ==> admitted(g, p, #[trigger] idx[k]),
        ensures
            spec_purge(spec_combine(base, added), idx) == base,
    {
        broadcast use vstd::seq_lib::group_filter_ensures;

        let pred = |id: NodeId| !idx.contains(id);
        let base_seq = (match base {
            Some(b) => b,
            None => Seq::<NodeId>::empty(),
        });
        assert forall|k: int| 0 <= k < base_seq.len() implies pred(#[trigger] base_seq[k]) by {
            if idx.contains(base_seq[k]) {
                let w = choose|w: int| 0 <= w < idx.len() && idx[w] == base_seq[k];
                assert(admitted(g, p, base_seq[k]));
            }
        }
        lemma_filter_all_true(base_seq, pred);
        assert forall|k: int| 0 <= k < added.len() implies !pred(#[trigger] added[k]) by {}
        added.lemma_all_neg_filter_empty(pred);
        if added.len() > 0 {
            let combined = base_seq + added;
            assert(spec_combine(base, added) == Some(combined));
            Seq::filter_distributes_over_add(base_seq, added, pred);
            assert(combined.filter(pred) == base_seq.filter(pred) + added.filter(pred));
            assert(combined.filter(pred) =~= base_seq);
            match base {
                Some(b) => {
                    assert(spec_purge(Some(combined), idx) == Some(b));
                },
                None => {
                    assert(combined.filter(pred) =~= Seq::<NodeId>::empty());
                    assert(spec_purge(Some(combined), idx) is None);
                },
            }
        } else {
            assert(spec_combine(base, added) == base);
            match base {
                Some(b) => {
                    assert(b.filter(pred) =~= b);
                    assert(spec_purge(base, idx) == Some(b));
                },
                None => {},
            }
        }
    }

    /// The relation `add_file` establishes between the index before and
    /// after: the file and position buckets of the path are replaced by the
    /// freshly indexed ids, every other file and position bucket stays, and
    /// each name and kind bucket is purged of the previously filed ids and
    /// extended with the matching fresh ones.
    pub open spec fn add_file_rel(
        pre: SymbolIndex,
        post: SymbolIndex,
        g: CodeGraph,
        p: Seq<char>,
        ids: Seq<NodeId>,
    ) -> bool {
        &&& post.file_bucket(p) == Some(indexed_ids(ids, g, p))
        &&& post.pos_bucket(p) == Some(spec_sort(pos_entries(g, indexed_ids(ids, g, p))))
        &&& (forall|q: Seq<char>| q != p ==> #[trigger] post.file_bucket(q) == pre.file_bucket(q))
        &&& (forall|q: Seq<char>| q != p ==> #[trigger] post.pos_bucket(q) == pre.pos_bucket(q))
        &&& (forall|nm: Seq<char>|
            #[trigger] post.name_bucket(nm) == spec_combine(
                spec_purge(pre.name_bucket(nm), bucket_or_empty(pre.files_table(), p)),
                added_names(g, indexed_ids(ids, g, p), nm),
            ))
        &&& (forall|t: Seq<char>|
            #[trigger] post.type_bucket(t) == spec_combine(
                spec_purge(pre.type_bucket(t), bucket_or_empty(pre.files_table(), p)),
                added_types(g, indexed_ids(ids, g, p), t),
            ))
    }

    /// Drop every entry of every table.
    pub fn clear(&mut self)
        ensures
            final(self).wf(),
            forall|nm: Seq<char>| #[trigger] final(self).name_bucket(nm) is None,
            forall|p: Seq<char>| #[trigger] final(self).file_bucket(p) is None,
            forall|t: Seq<char>| #[trigger] final(self).type_bucket(t) is None,
            forall|p: Seq<char>| #[trigger] final(self).pos_bucket(p) is None,
            forall|g: CodeGraph| #[trigger] final(self).consistent_with(g),
    {
        self.by_name.clear();
        self.by_file.clear();
        self.by_type.clear();
        self.by_position.clear();
    }
}

} // verus!
