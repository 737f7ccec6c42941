//! The values exchanged with language frontends.
//!
//! A frontend materializes nodes and edges for one file directly in the
//! graph and hands back a `FileInfo` naming the ids it created, grouped by
//! kind. The frontends themselves are external collaborators; this module
//! only fixes the shapes they produce.

use vstd::prelude::*;

use crate::graph::NodeId;

verus! {

/// Per-file parse summary: node ids grouped by kind.
#[derive(Debug)]
pub struct FileInfo {
    pub functions: Vec<NodeId>,
    pub classes: Vec<NodeId>,
    pub traits: Vec<NodeId>,
    pub imports: Vec<NodeId>,
}

impl FileInfo {
    /// Every id of a symbol-bearing group, functions first, then classes,
    /// then traits.
    pub open spec fn symbol_ids(self) -> Seq<NodeId> {
        self.functions@ + self.classes@ + self.traits@
    }

    /// An empty summary.
    pub fn new() -> (r: FileInfo)
        ensures
            r.symbol_ids().len() == 0,
            r.imports@.len() == 0,
    {
        let r = FileInfo { functions: Vec::new(), classes: Vec::new(), traits: Vec::new(), imports: Vec::new() };
        proof {
            assert(r.symbol_ids() =~= Seq::<NodeId>::empty());
        }
        r
    }

    /// The symbol-bearing groups flattened into one list.
    pub fn all_symbol_ids(&self) -> (r: Vec<NodeId>)
        ensures
            r@ == self.symbol_ids(),
    {
        let mut r: Vec<NodeId> = Vec::new();
        let mut i: usize = 0;
        let n1 = self.functions.len();
        while i < n1
            invariant
                0 <= i <= n1,
                n1 == self.functions@.len(),
                r@ == self.functions@.take(i as int),
            decreases n1 - i,
        {
            r.push(self.functions[i]);
            proof {
                assert(r@ =~= self.functions@.take(i as int + 1));
            }
            i += 1;
        }
        proof {
            assert(self.functions@.take(n1 as int) =~= self.functions@);
        }
        let mut i: usize = 0;
        let n2 = self.classes.len();
        while i < n2
            invariant
                0 <= i <= n2,
                n2 == self.classes@.len(),
                r@ == self.functions@ + self.classes@.take(i as int),
            decreases n2 - i,
        {
            r.push(self.classes[i]);
            proof {
                assert(r@ =~= self.functions@ + self.classes@.take(i as int + 1));
            }
            i += 1;
        }
        proof {
            assert(self.classes@.take(n2 as int) =~= self.classes@);
        }
        let mut i: usize = 0;
        let n3 = self.traits.len();
        while i < n3
            invariant
                0 <= i <= n3,
                n3 == self.traits@.len(),
                r@ == self.functions@ + self.classes@ + self.traits@.take(i as int),
            decreases n3 - i,
        {
            r.push(self.traits[i]);
            proof {
                assert(r@ =~= self.functions@ + self.classes@ + self.traits@.take(i as int + 1));
            }
            i += 1;
        }
        proof {
            assert(self.traits@.take(n3 as int) =~= self.traits@);
        }
        r
    }
}

/// Failures a language frontend can report.
#[derive(Debug)]
pub enum ParserError {
    /// The path uses a construct the frontend does not handle; carries the
    /// path and a description.
    UnsupportedFeature(String, String),
    /// The source text does not parse; carries a description.
    SyntaxError(String),
    /// The file could not be read; carries a description.
    Io(String),
}

/// Configuration handed to every frontend when the registry is built.
#[derive(Debug)]
pub struct ParserConfig {
    /// Whether a frontend should record each symbol's source text as a
    /// `source` property.
    pub include_source: bool,
}

impl ParserConfig {
    /// The default configuration: source text is recorded.
    pub fn new_default() -> (r: ParserConfig)
        ensures
            r.include_source,
    {
        ParserConfig { include_source: true }
    }
}

} // verus!
