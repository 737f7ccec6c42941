//! Error types of the server core.

use vstd::prelude::*;

use crate::parser_api::ParserError;

verus! {

/// Everything that can go wrong while answering a request.
#[derive(Debug)]
pub enum LspError {
    /// No symbol at the requested position.
    SymbolNotFound,
    /// The file has never been indexed; carries the path.
    FileNotIndexed(String),
    /// A language frontend failed.
    Parser(ParserError),
    /// The graph store failed; carries a description.
    Graph(String),
    /// The request named a URI that is not a file path.
    InvalidUri(String),
    /// No frontend handles the language.
    UnsupportedLanguage(String),
    /// A cache failed; carries a description.
    Cache(String),
    /// A filesystem read failed; carries a description.
    Io(String),
    /// The request named a node that does not exist.
    NodeNotFound(String),
}

/// The protocol error code for requests with bad parameters.
pub open spec fn invalid_params_code() -> i64 {
    (-32602) as i64
}

/// The protocol error code for internal failures.
pub open spec fn internal_error_code() -> i64 {
    (-32603) as i64
}

impl LspError {
    /// The protocol error code this error surfaces as: a missing symbol,
    /// file, node or URI, and a parser or graph failure, are the request's
    /// problem; an unsupported language, a cache fault, or an I/O fault is
    /// the server's.
    pub open spec fn spec_error_code(self) -> i64 {
        match self {
            LspError::SymbolNotFound => invalid_params_code(),
            LspError::FileNotIndexed(_) => invalid_params_code(),
            LspError::Parser(_) => invalid_params_code(),
            LspError::Graph(_) => invalid_params_code(),
            LspError::InvalidUri(_) => invalid_params_code(),
            LspError::NodeNotFound(_) => invalid_params_code(),
            _ => internal_error_code(),
        }
    }

    /// The protocol error code this error surfaces as.
    pub fn error_code(&self) -> (r: i64)
        ensures
            r == self.spec_error_code(),
    {
        match self {
            LspError::SymbolNotFound => -32602,
            LspError::FileNotIndexed(_) => -32602,
            LspError::Parser(_) => -32602,
            LspError::Graph(_) => -32602,
            LspError::InvalidUri(_) => -32602,
            LspError::NodeNotFound(_) => -32602,
            _ => -32603,
        }
    }

    /// A short description of the error kind.
    pub open spec fn spec_describe(self) -> Seq<char> {
        match self {
            LspError::SymbolNotFound => "Symbol not found at position"@,
            LspError::FileNotIndexed(_) => "File not indexed"@,
            LspError::Parser(_) => "Parser error"@,
            LspError::Graph(_) => "Graph error"@,
            LspError::InvalidUri(_) => "Invalid URI"@,
            LspError::UnsupportedLanguage(_) => "Unsupported language"@,
            LspError::Cache(_) => "Cache error"@,
            LspError::Io(_) => "IO error"@,
            LspError::NodeNotFound(_) => "Node not found"@,
        }
    }

    /// The full display of the error: its kind, then the payload it
    /// carries, if any.
    pub open spec fn spec_message(self) -> Seq<char> {
        match self {
            LspError::SymbolNotFound => "Symbol not found at position"@,
            LspError::FileNotIndexed(p) => "File not indexed: "@ + p@,
            LspError::Parser(inner) => "Parser error: "@ + inner.spec_message(),
            LspError::Graph(m) => "Graph error: "@ + m@,
            LspError::InvalidUri(u) => "Invalid URI: "@ + u@,
            LspError::UnsupportedLanguage(l) => "Unsupported language: "@ + l@,
            LspError::Cache(m) => "Cache error: "@ + m@,
            LspError::Io(m) => "IO error: "@ + m@,
            LspError::NodeNotFound(m) => "Node not found: "@ + m@,
        }
    }

    /// The full display of the error, payload included.
    pub fn message(&self) -> (r: String)
        ensures
            r@ == self.spec_message(),
    {
        let mut out: String;
        match self {
            LspError::SymbolNotFound => {
                out = "Symbol not found at position".to_owned();
            },
            LspError::FileNotIndexed(p) => {
                out = "File not indexed: ".to_owned();
                out.append(p.as_str());
            },
            LspError::Parser(inner) => {
                out = "Parser error: ".to_owned();
                let im = inner.message();
                out.append(im.as_str());
            },
            LspError::Graph(m) => {
                out = "Graph error: ".to_owned();
                out.append(m.as_str());
            },
            LspError::InvalidUri(u) => {
                out = "Invalid URI: ".to_owned();
                out.append(u.as_str());
            },
            LspError::UnsupportedLanguage(l) => {
                out = "Unsupported language: ".to_owned();
                out.append(l.as_str());
            },
            LspError::Cache(m) => {
                out = "Cache error: ".to_owned();
                out.append(m.as_str());
            },
            LspError::Io(m) => {
                out = "IO error: ".to_owned();
                out.append(m.as_str());
            },
            LspError::NodeNotFound(m) => {
                out = "Node not found: ".to_owned();
                out.append(m.as_str());
            },
        }
        proof {
            assert(out@ =~= self.spec_message());
        }
        out
    }

    /// A short description of the error kind.
    pub fn describe(&self) -> (r: &'static str)
        ensures
            r@ == self.spec_describe(),
    {
        match self {
            LspError::SymbolNotFound => "Symbol not found at position",
            LspError::FileNotIndexed(_) => "File not indexed",
            LspError::Parser(_) => "Parser error",
            LspError::Graph(_) => "Graph error",
            LspError::InvalidUri(_) => "Invalid URI",
            LspError::UnsupportedLanguage(_) => "Unsupported language",
            LspError::Cache(_) => "Cache error",
            LspError::Io(_) => "IO error",
            LspError::NodeNotFound(_) => "Node not found",
        }
    }
}

impl ParserError {
    /// The full display of the failure, payload included.
    pub open spec fn spec_message(self) -> Seq<char> {
        match self {
            ParserError::UnsupportedFeature(p, m) => "unsupported feature in "@ + p@ + ": "@ + m@,
            ParserError::SyntaxError(m) => "syntax error: "@ + m@,
            ParserError::Io(m) => "io error: "@ + m@,
        }
    }

    /// The full display of the failure, payload included.
    pub fn message(&self) -> (r: String)
        ensures
            r@ == self.spec_message(),
    {
        let mut out: String;
        match self {
            ParserError::UnsupportedFeature(p, m) => {
                out = "unsupported feature in ".to_owned();
                out.append(p.as_str());
                out.append(": ");
                out.append(m.as_str());
            },
            ParserError::SyntaxError(m) => {
                out = "syntax error: ".to_owned();
                out.append(m.as_str());
            },
            ParserError::Io(m) => {
                out = "io error: ".to_owned();
                out.append(m.as_str());
            },
        }
        proof {
            assert(out@ =~= self.spec_message());
        }
        out
    }
}

/// Result type of server operations.
pub type LspResult<T> = Result<T, LspError>;

} // verus!
