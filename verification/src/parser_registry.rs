//! Routing file paths and language names to language frontends.
//!
//! The dispatch rule is by file extension: `py` is Python, `rs` is Rust,
//! `ts`, `tsx`, `js` and `jsx` belong to the TypeScript frontend, `go` is Go.
//! Ambiguity is settled by a fixed order: Python, Rust, TypeScript, Go.
//! The frontends themselves are external collaborators; the registry only
//! decides which one a path or language name belongs to.

use vstd::prelude::*;

use crate::parser_api::ParserConfig;
use crate::text::lowered;
use crate::text::ci_str_eq;

verus! {

/// The languages with a frontend.
#[derive(Clone, Copy, Debug, PartialEq, Eq, Hash, Structural)]
pub enum Language {
    Python,
    Rust,
    TypeScript,
    Go,
}

/// Whether position `d` holds the dot that starts `p`'s file extension:
/// a dot inside the last path component, not its first character, with no
/// later dot.
pub open spec fn is_ext_dot(p: Seq<char>, d: int) -> bool {
    &&& 0 < d < p.len()
    &&& p[d] == '.'
    &&& p[d - 1] != '/'
    &&& forall|j: int| d < j < p.len() ==> p[j] != '.' && p[j] != '/'
}

/// The extension of a path: what follows the extension dot.
pub open spec fn ext_of(p: Seq<char>) -> Option<Seq<char>> {
    if exists|d: int| is_ext_dot(p, d) {
        let d = choose|d: int| is_ext_dot(p, d);
        Some(p.subrange(d + 1, p.len() as int))
    } else {
        None
    }
}

/// At most one position can hold the extension dot.
pub proof fn lemma_ext_dot_unique(p: Seq<char>, d1: int, d2: int)
    requires
        is_ext_dot(p, d1),
        is_ext_dot(p, d2),
    ensures
        d1 == d2,
{
    if d1 < d2 {
        assert(p[d2] != '.');
    }
    if d2 < d1 {
        assert(p[d1] != '.');
    }
}

/// Whether position `j` of `p` holds a dot or a path separator.
pub open spec fn dot_or_slash(p: Seq<char>, j: int) -> bool {
    p[j] == '.' || p[j] == '/'
}

/// Whether the path's extension is exactly `ext`.
pub fn path_ext_is(path: &str, ext: &str) -> (r: bool)
    ensures
        r == (ext_of(path@) == Some(ext@)),
{
    let v = crate::text::str_chars(path);
    let n = v.len();
    let mut cand: Option<usize> = None;
    let mut i: usize = 0;
    while i < n
        invariant
            0 <= i <= n,
            n == path@.len(),
            v@ == path@,
            match cand {
                Some(d) => d < i && path@[d as int] == '.' && forall|j: int|
                    d < j < i ==> path@[j] != '.' && path@[j] != '/',
                None => forall|d: int|
                    0 <= d < i && path@[d] == '.' ==> exists|j: int|
                        d < j < i && #[trigger] dot_or_slash(path@, j),
            },
        decreases n - i,
    {
        let c = v[i];
        if c == '.' {
            cand = Some(i);
        } else if c == '/' {
            proof {
                assert(dot_or_slash(path@, i as int));
                assert forall|d2: int|
                    0 <= d2 < i + 1 && path@[d2] == '.' implies exists|j: int|
                    d2 < j < i + 1 && #[trigger] dot_or_slash(path@, j) by {
                    assert(path@[i as int] == '/');
                    assert(d2 < i);
                }
            }
            cand = None;
        } else {
            proof {
                assert(path@[i as int] != '.' && path@[i as int] != '/');
                if cand is None {
                    assert forall|d2: int|
                        0 <= d2 < i + 1 && path@[d2] == '.' implies exists|j: int|
                        d2 < j < i + 1 && #[trigger] dot_or_slash(path@, j) by {
                        assert(d2 < i);
                        let j = choose|j: int| d2 < j < i && #[trigger] dot_or_slash(path@, j);
                        assert(d2 < j < i + 1 && dot_or_slash(path@, j));
                    }
                }
            }
        }
        i += 1;
    }
    match cand {
        Some(d) => {
            if d == 0 {
                proof {
                    assert forall|d2: int| !is_ext_dot(path@, d2) by {
                        if is_ext_dot(path@, d2) && d2 != 0 {
                            assert(path@[d2] != '.' || d2 > d);
                        }
                    }
                }
                return false;
            }
            if v[d - 1] == '/' {
                proof {
                    assert forall|d2: int| !is_ext_dot(path@, d2) by {
                        if is_ext_dot(path@, d2) {
                            lemma_candidate_is_only(path@, d as int, d2);
                        }
                    }
                }
                return false;
            }
            proof {
                assert(is_ext_dot(path@, d as int));
                let dd = choose|dd: int| is_ext_dot(path@, dd);
                lemma_ext_dot_unique(path@, dd, d as int);
            }
            let m = ext.unicode_len();
            if n - d - 1 != m {
                proof {
                    assert(ext_of(path@).unwrap().len() == n - d - 1);
                }
                return false;
            }
            let mut t: usize = 0;
            while t < m
                invariant
                    0 <= t <= m,
                    n == path@.len(),
                    v@ == path@,
                    m == ext@.len(),
                    0 < d < n,
                    n - d - 1 == m,
                    is_ext_dot(path@, d as int),
                    forall|q: int| 0 <= q < t ==> path@[d + 1 + q] == ext@[q],
                decreases m - t,
            {
                if v[d + 1 + t] != ext.get_char(t) {
                    proof {
                        assert(path@.subrange(d as int + 1, n as int)[t as int] != ext@[t as int]);
                        assert(ext_of(path@) == Some(
                            path@.subrange(d as int + 1, n as int),
                        ) || ext_of(path@) is None) by {
                            if ext_of(path@) is Some {
                                let dd = choose|dd: int| is_ext_dot(path@, dd);
                                assert(is_ext_dot(path@, d as int));
                                lemma_ext_dot_unique(path@, dd, d as int);
                            }
                        }
                    }
                    return false;
                }
                t += 1;
            }
            proof {
                assert(path@.subrange(d as int + 1, n as int) =~= ext@);
                assert(is_ext_dot(path@, d as int));
                let dd = choose|dd: int| is_ext_dot(path@, dd);
                lemma_ext_dot_unique(path@, dd, d as int);
            }
            true
        },
        None => {
            proof {
                assert forall|d2: int| !is_ext_dot(path@, d2) by {
                    if is_ext_dot(path@, d2) {
                        let j = choose|j: int| d2 < j < n && #[trigger] dot_or_slash(path@, j);
                        assert(path@[j] != '.' && path@[j] != '/');
                    }
                }
            }
            false
        },
    }
}

/// A candidate dot with no later dot or slash is the only possible
/// extension dot.
proof fn lemma_candidate_is_only(p: Seq<char>, d: int, d2: int)
    requires
        0 <= d < p.len(),
        p[d] == '.',
        forall|j: int| d < j < p.len() ==> p[j] != '.' && p[j] != '/',
        is_ext_dot(p, d2),
    ensures
        d2 == d,
{
    if d2 < d {
        assert(p[d] != '.');
    }
    if d2 > d {
        assert(p[d2] != '.');
    }
}

/// The frontend a path belongs to, by its extension.
pub open spec fn spec_parser_for_path(p: Seq<char>) -> Option<Language> {
    match ext_of(p) {
        Some(e) => {
            if e == "py"@ {
                Some(Language::Python)
            } else if e == "rs"@ {
                Some(Language::Rust)
            } else if e == "ts"@ || e == "tsx"@ || e == "js"@ || e == "jsx"@ {
                Some(Language::TypeScript)
            } else if e == "go"@ {
                Some(Language::Go)
            } else {
                None
            }
        },
        None => None,
    }
}

/// The language name reported for a path: TypeScript files and JavaScript
/// files are told apart by extension.
pub open spec fn spec_language_for_path(p: Seq<char>) -> Option<Seq<char>> {
    match spec_parser_for_path(p) {
        Some(Language::Python) => Some("python"@),
        Some(Language::Rust) => Some("rust"@),
        Some(Language::TypeScript) => {
            if ext_of(p) == Some("js"@) || ext_of(p) == Some("jsx"@) {
                Some("javascript"@)
            } else {
                Some("typescript"@)
            }
        },
        Some(Language::Go) => Some("go"@),
        None => None,
    }
}

/// Registry of the language frontends.
pub struct ParserRegistry {
    /// The configuration every frontend is built with.
    pub config: ParserConfig,
}

impl ParserRegistry {
    /// A registry with the default configuration.
    pub fn new() -> (r: ParserRegistry)
        ensures
            r.config.include_source,
    {
        ParserRegistry::with_config(ParserConfig::new_default())
    }

    /// A registry with a custom configuration.
    pub fn with_config(config: ParserConfig) -> (r: ParserRegistry)
        ensures
            r.config == config,
    {
        ParserRegistry { config }
    }

    /// The frontend for a language identifier, compared without regard to
    /// ASCII case; the JavaScript family belongs to the TypeScript frontend.
    pub fn get_parser(&self, language: &str) -> (r: Option<Language>)
        ensures
            r == (if lowered(language@) == "python"@ {
                Some(Language::Python)
            } else if lowered(language@) == "rust"@ {
                Some(Language::Rust)
            } else if lowered(language@) == "typescript"@ || lowered(language@) == "javascript"@
                || lowered(language@) == "typescriptreact"@ || lowered(language@)
                == "javascriptreact"@ {
                Some(Language::TypeScript)
            } else if lowered(language@) == "go"@ {
                Some(Language::Go)
            } else {
                None::<Language>
            }),
    {
        proof {
            lemma_keyword_lowered();
        }
        if ci_str_eq(language, "python") {
            Some(Language::Python)
        } else if ci_str_eq(language, "rust") {
            Some(Language::Rust)
        } else if ci_str_eq(language, "typescript") || ci_str_eq(language, "javascript")
            || ci_str_eq(language, "typescriptreact") || ci_str_eq(language, "javascriptreact") {
            Some(Language::TypeScript)
        } else if ci_str_eq(language, "go") {
            Some(Language::Go)
        } else {
            None
        }
    }

    /// The frontend for a file path, by extension, probing Python, Rust,
    /// TypeScript, and Go in that order.
    pub fn parser_for_path(&self, path: &str) -> (r: Option<Language>)
        ensures
            r == spec_parser_for_path(path@),
    {
        if path_ext_is(path, "py") {
            Some(Language::Python)
        } else if path_ext_is(path, "rs") {
            Some(Language::Rust)
        } else if path_ext_is(path, "ts") || path_ext_is(path, "tsx") || path_ext_is(path, "js")
            || path_ext_is(path, "jsx") {
            Some(Language::TypeScript)
        } else if path_ext_is(path, "go") {
            Some(Language::Go)
        } else {
            None
        }
    }

    /// Every file extension some frontend handles.
    pub fn supported_extensions(&self) -> (r: Vec<&'static str>)
        ensures
            r@.len() == 7,
            r@[0]@ == "py"@,
            r@[1]@ == "rs"@,
            r@[2]@ == "ts"@,
            r@[3]@ == "tsx"@,
            r@[4]@ == "js"@,
            r@[5]@ == "jsx"@,
            r@[6]@ == "go"@,
    {
        let mut r: Vec<&'static str> = Vec::new();
        r.push("py");
        r.push("rs");
        r.push("ts");
        r.push("tsx");
        r.push("js");
        r.push("jsx");
        r.push("go");
        r
    }

    /// Whether some frontend handles the path.
    pub fn can_parse(&self, path: &str) -> (r: bool)
        ensures
            r == (spec_parser_for_path(path@) is Some),
    {
        self.parser_for_path(path).is_some()
    }

    /// The language name for a path, if some frontend handles it.
    pub fn language_for_path(&self, path: &str) -> (r: Option<&'static str>)
        ensures
            r matches Some(l) ==> spec_language_for_path(path@) == Some(l@),
            r is None <==> spec_language_for_path(path@) is None,
    {
        proof {
            reveal_strlit("py");
            reveal_strlit("rs");
            reveal_strlit("ts");
            reveal_strlit("tsx");
            reveal_strlit("js");
            reveal_strlit("jsx");
            reveal_strlit("go");
        }
        if path_ext_is(path, "py") {
            proof {
                assert(spec_language_for_path(path@) == Some("python"@));
            }
            Some("python")
        } else if path_ext_is(path, "rs") {
            proof {
                assert(spec_language_for_path(path@) == Some("rust"@));
            }
            Some("rust")
        } else if path_ext_is(path, "ts") || path_ext_is(path, "tsx") {
            proof {
                assert(ext_of(path@) == Some("ts"@) || ext_of(path@) == Some("tsx"@));
                assert("ts"@ != "js"@) by {
                    assert(("ts"@)[0] == 't' && ("js"@)[0] == 'j');
                }
                assert("ts"@ != "jsx"@) by {
                    assert(("ts"@).len() == 2 && ("jsx"@).len() == 3);
                }
                assert("tsx"@ != "js"@) by {
                    assert(("tsx"@).len() == 3 && ("js"@).len() == 2);
                }
                assert("tsx"@ != "jsx"@) by {
                    assert(("tsx"@)[0] == 't' && ("jsx"@)[0] == 'j');
                }
                assert(spec_parser_for_path(path@) == Some(Language::TypeScript));
                assert(spec_language_for_path(path@) == Some("typescript"@));
            }
            Some("typescript")
        } else if path_ext_is(path, "js") || path_ext_is(path, "jsx") {
            proof {
                assert(spec_language_for_path(path@) == Some("javascript"@));
            }
            Some("javascript")
        } else if path_ext_is(path, "go") {
            proof {
                assert(spec_language_for_path(path@) == Some("go"@));
            }
            Some("go")
        } else {
            None
        }
    }
}

impl Default for ParserRegistry {
    /// A registry with the default configuration.
    fn default() -> (r: ParserRegistry)
        ensures
            r.config.include_source,
    {
        ParserRegistry::new()
    }
}

/// The language keywords are already lower case.
proof fn lemma_keyword_lowered()
    ensures
        lowered("python"@) == "python"@,
        lowered("rust"@) == "rust"@,
        lowered("typescript"@) == "typescript"@,
        lowered("javascript"@) == "javascript"@,
        lowered("typescriptreact"@) == "typescriptreact"@,
        lowered("javascriptreact"@) == "javascriptreact"@,
        lowered("go"@) == "go"@,
{
    reveal_strlit("python");
    reveal_strlit("rust");
    reveal_strlit("typescript");
    reveal_strlit("javascript");
    reveal_strlit("typescriptreact");
    reveal_strlit("javascriptreact");
    reveal_strlit("go");
    assert(lowered("python"@) =~= "python"@);
    assert(lowered("rust"@) =~= "rust"@);
    assert(lowered("typescript"@) =~= "typescript"@);
    assert(lowered("javascript"@) =~= "javascript"@);
    assert(lowered("typescriptreact"@) =~= "typescriptreact"@);
    assert(lowered("javascriptreact"@) =~= "javascriptreact"@);
    assert(lowered("go"@) =~= "go"@);
}

} // verus!
