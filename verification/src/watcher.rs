//! Planning filesystem events.
//!
//! The filesystem watcher itself is an external collaborator; it hands the
//! library plain events (created, modified, removed, plus the touched
//! paths), and the library decides what to do with each path: re-index it,
//! drop its nodes, or ignore it. Running the plan (reading files, parsing)
//! happens outside.

use vstd::prelude::*;

use crate::parser_api::FileInfo;
use crate::parser_registry::ParserRegistry;
use crate::parser_registry::spec_parser_for_path;

verus! {

/// The kinds of filesystem events the watcher reports.
#[derive(Clone, Copy, Debug, PartialEq, Eq, Structural)]
pub enum FileEventKind {
    Created,
    Modified,
    Removed,
    Other,
}

/// What to do with one touched path.
#[derive(Debug)]
pub enum FileAction {
    /// Read and re-parse the file, replacing its nodes.
    Reindex(String),
    /// Drop the file's nodes.
    Drop(String),
}

impl FileAction {
    /// The path the action concerns.
    pub open spec fn spec_path(self) -> Seq<char> {
        match self {
            FileAction::Reindex(p) => p@,
            FileAction::Drop(p) => p@,
        }
    }

    /// Whether this is a re-index action.
    pub open spec fn is_reindex(self) -> bool {
        self is Reindex
    }
}

/// The actions a single event calls for, path by path: creations and
/// modifications of parseable files are re-indexed, removals are dropped,
/// everything else is ignored.
pub open spec fn plan_upto(kind: FileEventKind, paths: Seq<String>, n: int) -> Seq<FileAction>
    decreases n,
{
    if n <= 0 {
        Seq::empty()
    } else {
        let pre = plan_upto(kind, paths, n - 1);
        match kind {
            FileEventKind::Created => if spec_parser_for_path(paths[n - 1]@) is Some {
                pre.push(FileAction::Reindex(paths[n - 1]))
            } else {
                pre
            },
            FileEventKind::Modified => if spec_parser_for_path(paths[n - 1]@) is Some {
                pre.push(FileAction::Reindex(paths[n - 1]))
            } else {
                pre
            },
            FileEventKind::Removed => pre.push(FileAction::Drop(paths[n - 1])),
            FileEventKind::Other => pre,
        }
    }
}

/// Decide what one filesystem event calls for.
pub fn plan_file_event(registry: &ParserRegistry, kind: FileEventKind, paths: Vec<String>) -> (r:
    Vec<FileAction>)
    ensures
        r@ == plan_upto(kind, paths@, paths@.len() as int),
{
    let ghost pv = paths@;
    let mut r: Vec<FileAction> = Vec::new();
    let n = paths.len();
    let mut paths = paths;
    let mut k: usize = 0;
    while k < n
        invariant
            0 <= k <= n,
            n == pv.len(),
            paths@ == pv,
            r@ == plan_upto(kind, pv, k as int),
        decreases n - k,
    {
        let is_reindex_kind = match kind {
            FileEventKind::Created => true,
            FileEventKind::Modified => true,
            _ => false,
        };
        let p = paths[k].clone();
        proof {
            assert(p@ == pv[k as int]@);
        }
        if is_reindex_kind {
            if registry.can_parse(p.as_str()) {
                r.push(FileAction::Reindex(p));
            }
        } else {
            let is_removed = match kind {
                FileEventKind::Removed => true,
                FileEventKind::Other => false,
                _ => false,
            };
            if is_removed {
                r.push(FileAction::Drop(p));
            }
        }
        proof {
            assert(r@ == plan_upto(kind, pv, k as int + 1));
        }
        k += 1;
    }
    r
}

/// The outcome of re-indexing a batch of files.
#[derive(Debug)]
pub struct BatchUpdateResult {
    /// Files that parsed, with their summaries.
    pub succeeded: Vec<(String, FileInfo)>,
    /// Files that failed, with a description.
    pub failed: Vec<(String, String)>,
}

impl BatchUpdateResult {
    /// Whether every file of the batch parsed.
    pub fn all_succeeded(&self) -> (r: bool)
        ensures
            r == (self.failed@.len() == 0),
    {
        self.failed.len() == 0
    }
}

} // verus!
