//! Scanning a text by character position: whitespace, lines, tokens.
use vstd::prelude::*;

verus! {

/// Unicode's `White_Space` characters.
pub open spec fn is_ws(c: char) -> bool {
    let u = c as u32;
    u == 0x09 || u == 0x0A || u == 0x0B || u == 0x0C || u == 0x0D || u == 0x20 || u == 0x85
        || u == 0xA0 || u == 0x1680 || (0x2000 <= u && u <= 0x200A) || u == 0x2028 || u == 0x2029
        || u == 0x202F || u == 0x205F || u == 0x3000
}

/// The position just past the first `\n` at or after `i`, or the end of `s`.
pub open spec fn line_end(s: Seq<char>, i: int) -> int
    decreases s.len() - i,
{
    if i >= s.len() {
        s.len() as int
    } else if s[i] == '\n' {
        i + 1
    } else {
        line_end(s, i + 1)
    }
}

/// The first position in `[j, e)` that is not whitespace, or `e`.
pub open spec fn skip_ws(s: Seq<char>, j: int, e: int) -> int
    decreases e - j,
{
    if j < e && is_ws(s[j]) {
        skip_ws(s, j + 1, e)
    } else {
        j
    }
}

/// The first position in `[j, e)` that is whitespace, or `e`.
pub open spec fn skip_token(s: Seq<char>, j: int, e: int) -> int
    decreases e - j,
{
    if j < e && !is_ws(s[j]) {
        skip_token(s, j + 1, e)
    } else {
        j
    }
}

/// The first position of `:` in `[j, e)`, or `e`.
pub open spec fn find_colon(s: Seq<char>, j: int, e: int) -> int
    decreases e - j,
{
    if j >= e {
        e
    } else if s[j] == ':' {
        j
    } else {
        find_colon(s, j + 1, e)
    }
}

/// The end of `[a, e)` once trailing whitespace is cut off.
pub open spec fn trim_end(s: Seq<char>, a: int, e: int) -> int
    decreases e - a,
{
    if e > a && is_ws(s[e - 1]) {
        trim_end(s, a, e - 1)
    } else {
        e
    }
}

pub proof fn lemma_line_end_bounds(s: Seq<char>, i: int)
    requires
        0 <= i < s.len(),
    ensures
        i < line_end(s, i) <= s.len(),
    decreases s.len() - i,
{
    if s[i] != '\n' {
        if i + 1 < s.len() {
            lemma_line_end_bounds(s, i + 1);
        } else {
            assert(line_end(s, i + 1) == s.len());
        }
    }
}

pub proof fn lemma_line_end_at(s: Seq<char>, i: int, e: int)
    requires
        0 <= i < e <= s.len(),
        forall|k: int| i <= k < e - 1 ==> s[k] != '\n',
        s[e - 1] == '\n',
    ensures
        line_end(s, i) == e,
    decreases e - i,
{
    if i < e - 1 {
        lemma_line_end_at(s, i + 1, e);
    }
}

pub proof fn lemma_skip_ws_at(s: Seq<char>, j: int, m: int, e: int)
    requires
        0 <= j <= m <= e <= s.len(),
        forall|k: int| j <= k < m ==> is_ws(s[k]),
        m < e ==> !is_ws(s[m]),
    ensures
        skip_ws(s, j, e) == m,
    decreases m - j,
{
    if j < m {
        lemma_skip_ws_at(s, j + 1, m, e);
    }
}

pub proof fn lemma_skip_token_at(s: Seq<char>, j: int, m: int, e: int)
    requires
        0 <= j <= m <= e <= s.len(),
        forall|k: int| j <= k < m ==> !is_ws(s[k]),
        m < e ==> is_ws(s[m]),
    ensures
        skip_token(s, j, e) == m,
    decreases m - j,
{
    if j < m {
        lemma_skip_token_at(s, j + 1, m, e);
    }
}

pub proof fn lemma_find_colon_at(s: Seq<char>, j: int, m: int, e: int)
    requires
        0 <= j <= m < e <= s.len(),
        forall|k: int| j <= k < m ==> s[k] != ':',
        s[m] == ':',
    ensures
        find_colon(s, j, e) == m,
    decreases m - j,
{
    if j < m {
        lemma_find_colon_at(s, j + 1, m, e);
    }
}

pub proof fn lemma_trim_end_at(s: Seq<char>, a: int, m: int, e: int)
    requires
        0 <= a <= m <= e <= s.len(),
        forall|k: int| m <= k < e ==> is_ws(s[k]),
        m > a ==> !is_ws(s[m - 1]),
    ensures
        trim_end(s, a, e) == m,
    decreases e - m,
{
    if m < e {
        lemma_trim_end_at(s, a, m, e - 1);
    }
}

/// A line ends at the end of the text or just past a `\n`.
pub proof fn lemma_line_end_newline(s: Seq<char>, i: int)
    requires
        0 <= i < s.len(),
    ensures
        line_end(s, i) == s.len() || s[line_end(s, i) - 1] == '\n',
    decreases s.len() - i,
{
    if s[i] != '\n' {
        if i + 1 < s.len() {
            lemma_line_end_newline(s, i + 1);
        } else {
            assert(line_end(s, i + 1) == s.len());
        }
    }
}

/// A line that ends in `\n` ends there whatever follows the text.
pub proof fn lemma_line_end_prefix(s: Seq<char>, t: Seq<char>, i: int)
    requires
        0 <= i < s.len(),
        s[line_end(s, i) - 1] == '\n',
    ensures
        line_end(s + t, i) == line_end(s, i),
    decreases s.len() - i,
{
    assert((s + t)[i] == s[i]);
    if s[i] != '\n' {
        if i + 1 < s.len() {
            lemma_line_end_prefix(s, t, i + 1);
        } else {
            assert(line_end(s, i + 1) == s.len());
        }
    }
}

/// Scans within `[j, e)` read nothing past `e`.
pub proof fn lemma_scan_prefix(s: Seq<char>, t: Seq<char>, j: int, e: int)
    requires
        0 <= j <= e <= s.len(),
    ensures
        skip_ws(s + t, j, e) == skip_ws(s, j, e),
        skip_token(s + t, j, e) == skip_token(s, j, e),
        find_colon(s + t, j, e) == find_colon(s, j, e),
        trim_end(s + t, j, e) == trim_end(s, j, e),
        j <= skip_ws(s, j, e) <= e,
        j <= skip_token(s, j, e) <= e,
        j <= find_colon(s, j, e) <= e,
        j <= trim_end(s, j, e) <= e,
    decreases e - j,
{
    if j < e {
        assert((s + t)[j] == s[j]);
        assert((s + t)[e - 1] == s[e - 1]);
        lemma_scan_prefix(s, t, j + 1, e);
        lemma_scan_prefix(s, t, j, e - 1);
    }
}

pub fn is_whitespace(c: char) -> (r: bool)
    ensures
        r == is_ws(c),
{
    let u = c as u32;
    u == 0x09 || u == 0x0A || u == 0x0B || u == 0x0C || u == 0x0D || u == 0x20 || u == 0x85
        || u == 0xA0 || u == 0x1680 || (0x2000 <= u && u <= 0x200A) || u == 0x2028 || u == 0x2029
        || u == 0x202F || u == 0x205F || u == 0x3000
}

pub fn scan_line_end(text: &str, i: usize, n: usize) -> (r: usize)
    requires
        n == text@.len(),
        i <= n,
    ensures
        r == line_end(text@, i as int),
        i <= r <= n,
        i < n ==> i < r,
{
    let mut j = i;
    while j < n && text.get_char(j) != '\n'
        invariant
            n == text@.len(),
            i <= j <= n,
            line_end(text@, i as int) == line_end(text@, j as int),
        decreases n - j,
    {
        j = j + 1;
    }
    if j < n {
        j + 1
    } else {
        n
    }
}

pub fn scan_ws(text: &str, j: usize, e: usize) -> (r: usize)
    requires
        j <= e <= text@.len(),
    ensures
        r == skip_ws(text@, j as int, e as int),
        j <= r <= e,
{
    let mut k = j;
    while k < e && is_whitespace(text.get_char(k))
        invariant
            j <= k <= e <= text@.len(),
            skip_ws(text@, j as int, e as int) == skip_ws(text@, k as int, e as int),
        decreases e - k,
    {
        k = k + 1;
    }
    k
}

pub fn scan_token(text: &str, j: usize, e: usize) -> (r: usize)
    requires
        j <= e <= text@.len(),
    ensures
        r == skip_token(text@, j as int, e as int),
        j <= r <= e,
{
    let mut k = j;
    while k < e && !is_whitespace(text.get_char(k))
        invariant
            j <= k <= e <= text@.len(),
            skip_token(text@, j as int, e as int) == skip_token(text@, k as int, e as int),
        decreases e - k,
    {
        k = k + 1;
    }
    k
}

pub fn scan_colon(text: &str, j: usize, e: usize) -> (r: usize)
    requires
        j <= e <= text@.len(),
    ensures
        r == find_colon(text@, j as int, e as int),
        j <= r <= e,
{
    let mut k = j;
    while k < e && text.get_char(k) != ':'
        invariant
            j <= k <= e <= text@.len(),
            find_colon(text@, j as int, e as int) == find_colon(text@, k as int, e as int),
        decreases e - k,
    {
        k = k + 1;
    }
    k
}

pub fn scan_trim_end(text: &str, a: usize, e: usize) -> (r: usize)
    requires
        a <= e <= text@.len(),
    ensures
        r == trim_end(text@, a as int, e as int),
        a <= r <= e,
{
    let mut k = e;
    while k > a && is_whitespace(text.get_char(k - 1))
        invariant
            a <= k <= e <= text@.len(),
            trim_end(text@, a as int, e as int) == trim_end(text@, a as int, k as int),
        decreases k,
    {
        k = k - 1;
    }
    k
}

/// Whether two texts hold the same characters.
pub fn same_text(a: &str, b: &str) -> (r: bool)
    ensures
        r == (a@ == b@),
{
    let n = a.unicode_len();
    if n != b.unicode_len() {
        return false;
    }
    let mut i: usize = 0;
    while i < n
        invariant
            n == a@.len() == b@.len(),
            i <= n,
            a@.subrange(0, i as int) == b@.subrange(0, i as int),
        decreases n - i,
    {
        if a.get_char(i) != b.get_char(i) {
            return false;
        }
        assert(a@.subrange(0, i + 1) =~= a@.subrange(0, i as int).push(a@[i as int]));
        assert(b@.subrange(0, i + 1) =~= b@.subrange(0, i as int).push(b@[i as int]));
        i = i + 1;
    }
    assert(a@ =~= a@.subrange(0, n as int));
    assert(b@ =~= b@.subrange(0, n as int));
    true
}

} // verus!
