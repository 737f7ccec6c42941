//! Character-level text helpers: ASCII case folding and substring search.

use vstd::prelude::*;

verus! {

/// ASCII lower-casing of one character; anything else is unchanged.
pub open spec fn lower_char(c: char) -> char {
    if c == 'A' {
        'a'
    } else if c == 'B' {
        'b'
    } else if c == 'C' {
        'c'
    } else if c == 'D' {
        'd'
    } else if c == 'E' {
        'e'
    } else if c == 'F' {
        'f'
    } else if c == 'G' {
        'g'
    } else if c == 'H' {
        'h'
    } else if c == 'I' {
        'i'
    } else if c == 'J' {
        'j'
    } else if c == 'K' {
        'k'
    } else if c == 'L' {
        'l'
    } else if c == 'M' {
        'm'
    } else if c == 'N' {
        'n'
    } else if c == 'O' {
        'o'
    } else if c == 'P' {
        'p'
    } else if c == 'Q' {
        'q'
    } else if c == 'R' {
        'r'
    } else if c == 'S' {
        's'
    } else if c == 'T' {
        't'
    } else if c == 'U' {
        'u'
    } else if c == 'V' {
        'v'
    } else if c == 'W' {
        'w'
    } else if c == 'X' {
        'x'
    } else if c == 'Y' {
        'y'
    } else if c == 'Z' {
        'z'
    } else {
        c
    }
}

/// A string folded to ASCII lower case, character by character.
pub open spec fn lowered(s: Seq<char>) -> Seq<char> {
    s.map_values(|c: char| lower_char(c))
}

/// ASCII lower-casing of one character.
pub fn lower_char_exec(c: char) -> (r: char)
    ensures
        r == lower_char(c),
{
    match c {
        'A' => 'a',
        'B' => 'b',
        'C' => 'c',
        'D' => 'd',
        'E' => 'e',
        'F' => 'f',
        'G' => 'g',
        'H' => 'h',
        'I' => 'i',
        'J' => 'j',
        'K' => 'k',
        'L' => 'l',
        'M' => 'm',
        'N' => 'n',
        'O' => 'o',
        'P' => 'p',
        'Q' => 'q',
        'R' => 'r',
        'S' => 's',
        'T' => 't',
        'U' => 'u',
        'V' => 'v',
        'W' => 'w',
        'X' => 'x',
        'Y' => 'y',
        'Z' => 'z',
        _ => c,
    }
}

/// The characters of a string slice, in order.
pub fn str_chars(s: &str) -> (r: Vec<char>)
    ensures
        r@ == s@,
{
    let n = s.unicode_len();
    let mut r: Vec<char> = Vec::new();
    let mut i: usize = 0;
    while i < n
        invariant
            0 <= i <= n,
            n == s@.len(),
            r@ == s@.take(i as int),
        decreases n - i,
    {
        r.push(s.get_char(i));
        proof {
            assert(r@ =~= s@.take(i as int + 1));
        }
        i += 1;
    }
    proof {
        assert(s@.take(n as int) =~= s@);
    }
    r
}

/// Whether two strings agree up to ASCII case.
pub fn ci_str_eq(a: &str, b: &str) -> (r: bool)
    ensures
        r == (lowered(a@) == lowered(b@)),
{
    let na = a.unicode_len();
    let nb = b.unicode_len();
    if na != nb {
        proof {
            assert(lowered(a@).len() == a@.len());
            assert(lowered(b@).len() == b@.len());
        }
        return false;
    }
    let mut i: usize = 0;
    while i < na
        invariant
            0 <= i <= na,
            na == a@.len(),
            na == b@.len(),
            forall|j: int| 0 <= j < i ==> lower_char(a@[j]) == lower_char(b@[j]),
        decreases na - i,
    {
        let ca = lower_char_exec(a.get_char(i));
        let cb = lower_char_exec(b.get_char(i));
        if ca != cb {
            proof {
                assert(lowered(a@)[i as int] != lowered(b@)[i as int]);
            }
            return false;
        }
        i += 1;
    }
    proof {
        assert(lowered(a@) =~= lowered(b@));
    }
    true
}

/// Whether `needle` occurs in `hay` starting at `k`.
pub open spec fn match_at(hay: Seq<char>, needle: Seq<char>, k: int) -> bool {
    &&& 0 <= k
    &&& k + needle.len() <= hay.len()
    &&& forall|j: int| 0 <= j < needle.len() ==> hay[k + j] == needle[j]
}

/// Whether `needle` occurs somewhere in `hay`.
pub open spec fn contains_sub(hay: Seq<char>, needle: Seq<char>) -> bool {
    exists|k: int| match_at(hay, needle, k)
}

/// Substring search over character lists.
pub fn chars_contain(hay: &Vec<char>, needle: &Vec<char>) -> (r: bool)
    ensures
        r == contains_sub(hay@, needle@),
{
    let n = hay.len();
    let m = needle.len();
    if m > n {
        proof {
            assert(!contains_sub(hay@, needle@));
        }
        return false;
    }
    let mut k: usize = 0;
    while k <= n - m
        invariant
            0 <= k <= n - m + 1,
            m <= n,
            n == hay@.len(),
            m == needle@.len(),
            forall|q: int| 0 <= q < k ==> !match_at(hay@, needle@, q),
        decreases n - m - k + 1,
    {
        let mut j: usize = 0;
        let mut all: bool = true;
        while j < m
            invariant
                0 <= j <= m,
                0 <= k <= n - m,
                m <= n,
                n == hay@.len(),
                m == needle@.len(),
                all ==> forall|q: int| 0 <= q < j ==> hay@[k + q] == needle@[q],
                !all ==> !match_at(hay@, needle@, k as int),
            decreases m - j,
        {
            if hay[k + j] != needle[j] {
                all = false;
                proof {
                    assert(!match_at(hay@, needle@, k as int));
                }
                j = m;
            } else {
                j += 1;
            }
        }
        if all {
            proof {
                assert(match_at(hay@, needle@, k as int));
            }
            return true;
        }
        k += 1;
    }
    proof {
        assert forall|q: int| !match_at(hay@, needle@, q) by {
            if match_at(hay@, needle@, q) {
                assert(0 <= q <= n - m);
            }
        }
    }
    false
}

/// What folding a string to lower case returns. The mapping is Unicode's,
/// a function of the characters alone; it is named rather than written out.
pub uninterp spec fn lower_of(s: Seq<char>) -> Seq<char>;

/// Relies on str::to_lowercase: the Unicode lowercase mapping, locale
/// independent, a function of the characters alone; an empty string stays
/// empty.
#[verifier::external_body]
pub fn lowercase(s: &str) -> (r: String)
    ensures
        r@ == lower_of(s@),
        s@.len() == 0 ==> r@.len() == 0,
{
    s.to_lowercase()
}

// ==========================================
// Line slicing
// ==========================================

/// The char positions where the first `n` characters' lines begin: zero,
/// then the position after each newline.
pub open spec fn line_starts_upto(s: Seq<char>, n: int) -> Seq<int>
    decreases n,
{
    if n <= 0 {
        seq![0int]
    } else {
        let pre = line_starts_upto(s, n - 1);
        if s[n - 1] == '\n' {
            pre.push(n)
        } else {
            pre
        }
    }
}

/// Every line start of a text.
pub open spec fn spec_line_starts(s: Seq<char>) -> Seq<int> {
    line_starts_upto(s, s.len() as int)
}

/// The number of lines, counting as the line iterator does: an empty text
/// has none, and a trailing newline does not open a final empty line.
pub open spec fn spec_line_count(s: Seq<char>) -> int {
    if s.len() == 0 {
        0
    } else if s[s.len() - 1] == '\n' {
        spec_line_starts(s).len() - 1
    } else {
        spec_line_starts(s).len() as int
    }
}

/// The text of lines `start_line ..= end_line` (1-indexed), with the
/// separators between them but not the trailing newline.
pub open spec fn spec_line_slice(s: Seq<char>, start_line: int, end_line: int) -> Seq<char> {
    let starts = spec_line_starts(s);
    let a = starts[start_line - 1];
    let b = (if end_line < starts.len() {
        starts[end_line] - 1
    } else {
        s.len() as int
    });
    s.subrange(a, b)
}

/// Line starts begin at zero, sit just after newlines, stay in bounds, and
/// strictly increase.
proof fn lemma_line_starts_props(s: Seq<char>, n: int)
    requires
        0 <= n <= s.len(),
    ensures
        line_starts_upto(s, n).len() >= 1,
        line_starts_upto(s, n)[0] == 0,
        forall|j: int|
            0 <= j < line_starts_upto(s, n).len() ==> 0 <= #[trigger] line_starts_upto(s, n)[j]
                <= n,
        forall|j1: int, j2: int|
            0 <= j1 < j2 < line_starts_upto(s, n).len() ==> #[trigger] line_starts_upto(s, n)[j1]
                < #[trigger] line_starts_upto(s, n)[j2],
    decreases n,
{
    if n > 0 {
        lemma_line_starts_props(s, n - 1);
        let pre = line_starts_upto(s, n - 1);
        let cur = line_starts_upto(s, n);
        assert(forall|j: int| 0 <= j < pre.len() ==> cur[j] == pre[j]);
    }
}

/// Slice whole lines out of a text: lines `start_line ..= end_line`,
/// 1-indexed, when the span lies within the text's lines.
pub fn slice_lines(text: &str, start_line: usize, end_line: usize) -> (r: Option<String>)
    ensures
        r matches Some(out) ==> 1 <= start_line <= end_line <= spec_line_count(text@) && out@
            == spec_line_slice(text@, start_line as int, end_line as int),
        r is None ==> !(1 <= start_line && start_line <= end_line && end_line <= spec_line_count(
            text@,
        )),
{
    let v = str_chars(text);
    let n = v.len();
    let mut starts: Vec<usize> = Vec::new();
    starts.push(0);
    let mut i: usize = 0;
    proof {
        assert(starts@.len() == line_starts_upto(text@, 0).len());
        assert(forall|j: int|
            0 <= j < starts@.len() ==> starts@[j] as int == line_starts_upto(text@, 0)[j]);
    }
    while i < n
        invariant
            0 <= i <= n,
            n == text@.len(),
            v@ == text@,
            starts@.len() == line_starts_upto(text@, i as int).len(),
            forall|j: int|
                0 <= j < starts@.len() ==> starts@[j] as int == line_starts_upto(
                    text@,
                    i as int,
                )[j],
        decreases n - i,
    {
        if v[i] == '\n' {
            starts.push(i + 1);
        }
        proof {
            assert(starts@.len() == line_starts_upto(text@, i as int + 1).len());
            assert(forall|j: int|
                0 <= j < starts@.len() ==> starts@[j] as int == line_starts_upto(
                    text@,
                    i as int + 1,
                )[j]);
        }
        i += 1;
    }
    proof {
        lemma_line_starts_props(text@, n as int);
    }
    let line_total: usize = if n == 0 {
        0
    } else if v[n - 1] == '\n' {
        starts.len() - 1
    } else {
        starts.len()
    };
    proof {
        assert(line_total as int == spec_line_count(text@));
    }
    if start_line < 1 || start_line > end_line || end_line > line_total {
        return None;
    }
    let a = starts[start_line - 1];
    let b = if end_line < starts.len() {
        starts[end_line] - 1
    } else {
        n
    };
    proof {
        assert(a <= b && b <= text@.len());
    }
    Some(text.substring_char(a, b).to_owned())
}

} // verus!
