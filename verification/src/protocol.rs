//! Editor-protocol coordinate types.
//!
//! The editor speaks 0-indexed lines and 0-indexed columns; the graph stores
//! 1-indexed lines and 0-indexed columns. These are the editor-side shapes;
//! the conversion lives with `IndexRange`.

use vstd::prelude::*;

verus! {

/// An editor position: 0-indexed line, 0-indexed character.
#[derive(Clone, Copy, Debug, PartialEq, Eq, Structural)]
pub struct Position {
    pub line: u32,
    pub character: u32,
}

/// An editor range.
#[derive(Clone, Copy, Debug, PartialEq, Eq, Structural)]
pub struct Range {
    pub start: Position,
    pub end: Position,
}

/// A place in the workspace: a file URI and an editor range.
#[derive(Clone, Debug)]
pub struct Location {
    pub uri: String,
    pub range: Range,
}

/// The symbol kinds the server reports.
#[derive(Clone, Copy, Debug, PartialEq, Eq, Structural)]
pub enum SymbolKind {
    File,
    Module,
    Class,
    Interface,
    Function,
    Variable,
    TypeParameter,
}

impl SymbolKind {
    /// The numeric code the editor protocol assigns to the kind.
    pub open spec fn spec_protocol_code(self) -> u32 {
        match self {
            SymbolKind::File => 1,
            SymbolKind::Module => 2,
            SymbolKind::Class => 5,
            SymbolKind::Interface => 11,
            SymbolKind::Function => 12,
            SymbolKind::Variable => 13,
            SymbolKind::TypeParameter => 26,
        }
    }

    /// The numeric code the editor protocol assigns to the kind.
    pub fn protocol_code(&self) -> (r: u32)
        ensures
            r == self.spec_protocol_code(),
    {
        match self {
            SymbolKind::File => 1,
            SymbolKind::Module => 2,
            SymbolKind::Class => 5,
            SymbolKind::Interface => 11,
            SymbolKind::Function => 12,
            SymbolKind::Variable => 13,
            SymbolKind::TypeParameter => 26,
        }
    }
}

/// One entry of a document-symbol answer.
#[derive(Clone, Debug)]
pub struct SymbolInformation {
    pub name: String,
    pub kind: SymbolKind,
    pub location: Location,
}

/// One call-hierarchy item; `data` carries the opaque node-id payload that
/// round-trips between prepare and the call requests.
#[derive(Clone, Debug)]
pub struct CallHierarchyItem {
    pub name: String,
    pub kind: SymbolKind,
    pub detail: Option<String>,
    pub uri: String,
    pub range: Range,
    pub selection_range: Range,
    pub data: String,
}

/// One incoming or outgoing call: the related item and the ranges the call
/// was seen at.
#[derive(Clone, Debug)]
pub struct CallHierarchyCall {
    pub item: CallHierarchyItem,
    pub from_ranges: Vec<Range>,
}

} // verus!
