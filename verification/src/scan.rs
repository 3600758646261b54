//! Character-level scanning over the input text: whitespace, identifier runs,
//! and bracket-balanced scanning up to a closing delimiter or a top-level comma.
//!
//! All executable scanners are proved equal to recursive specification
//! functions over the `Seq<char>` view of the text, so every later stage of
//! the pipeline is pinned down to a mathematical function of the input.
use vstd::prelude::*;
use vstd::string::*;

verus! {

// ---------------------------------------------------------------------------
// Character classes
// ---------------------------------------------------------------------------
/// Whitespace, as the schema grammar understands it.
pub open spec fn is_ws(c: char) -> bool {
    c == ' ' || c == '\t' || c == '\n' || c == '\r'
}

/// A character that may begin an identifier token.
pub open spec fn is_ident_start(c: char) -> bool {
    ('a' as u32 <= c as u32 && c as u32 <= 'z' as u32) || ('A' as u32 <= c as u32 && c as u32
        <= 'Z' as u32) || c == '_'
}

/// A decimal digit.
pub open spec fn is_digit(c: char) -> bool {
    '0' as u32 <= c as u32 && c as u32 <= '9' as u32
}

/// A character that may continue an identifier token.
pub open spec fn is_ident_cont(c: char) -> bool {
    is_ident_start(c) || is_digit(c)
}

pub fn ws_char(c: char) -> (r: bool)
    ensures
        r == is_ws(c),
{
    c == ' ' || c == '\t' || c == '\n' || c == '\r'
}

pub fn ident_start_char(c: char) -> (r: bool)
    ensures
        r == is_ident_start(c),
{
    let u = c as u32;
    ('a' as u32 <= u && u <= 'z' as u32) || ('A' as u32 <= u && u <= 'Z' as u32) || c == '_'
}

pub fn ident_cont_char(c: char) -> (r: bool)
    ensures
        r == is_ident_cont(c),
{
    let u = c as u32;
    ident_start_char(c) || ('0' as u32 <= u && u <= '9' as u32)
}

// ---------------------------------------------------------------------------
// Whitespace skipping
// ---------------------------------------------------------------------------
/// Index of the first non-whitespace character at or after `i`.
pub open spec fn spec_skip_ws(s: Seq<char>, i: int) -> int
    decreases s.len() - i,
{
    if 0 <= i < s.len() && is_ws(s[i]) {
        spec_skip_ws(s, i + 1)
    } else {
        i
    }
}

pub proof fn lemma_skip_ws_bounds(s: Seq<char>, i: int)
    requires
        0 <= i <= s.len(),
    ensures
        i <= spec_skip_ws(s, i) <= s.len(),
    decreases s.len() - i,
{
    if i < s.len() && is_ws(s[i]) {
        lemma_skip_ws_bounds(s, i + 1);
    }
}

pub fn skip_ws(s: &str, n: usize, start: usize) -> (r: usize)
    requires
        n == s@.len(),
        start <= n,
    ensures
        r == spec_skip_ws(s@, start as int),
        start <= r <= n,
{
    let mut i = start;
    loop
        invariant
            n == s@.len(),
            start <= i <= n,
            spec_skip_ws(s@, start as int) == spec_skip_ws(s@, i as int),
        decreases n - i,
    {
        if i >= n {
            return i;
        }
        let c = s.get_char(i);
        if !ws_char(c) {
            return i;
        }
        i += 1;
    }
}

// ---------------------------------------------------------------------------
// Identifier runs
// ---------------------------------------------------------------------------
/// End of the maximal run of identifier characters beginning at `i`.
pub open spec fn spec_ident_end(s: Seq<char>, i: int) -> int
    decreases s.len() - i,
{
    if 0 <= i < s.len() && is_ident_cont(s[i]) {
        spec_ident_end(s, i + 1)
    } else {
        i
    }
}

pub proof fn lemma_ident_end_bounds(s: Seq<char>, i: int)
    requires
        0 <= i <= s.len(),
    ensures
        i <= spec_ident_end(s, i) <= s.len(),
    decreases s.len() - i,
{
    if i < s.len() && is_ident_cont(s[i]) {
        lemma_ident_end_bounds(s, i + 1);
    }
}

pub fn ident_end(s: &str, n: usize, start: usize) -> (r: usize)
    requires
        n == s@.len(),
        start <= n,
    ensures
        r == spec_ident_end(s@, start as int),
        start <= r <= n,
{
    let mut i = start;
    loop
        invariant
            n == s@.len(),
            start <= i <= n,
            spec_ident_end(s@, start as int) == spec_ident_end(s@, i as int),
        decreases n - i,
    {
        if i >= n {
            return i;
        }
        let c = s.get_char(i);
        if !ident_cont_char(c) {
            return i;
        }
        i += 1;
    }
}

// ---------------------------------------------------------------------------
// Trailing-whitespace trimming
// ---------------------------------------------------------------------------
/// Largest prefix end `k <= to` such that `s[k..to)` is all whitespace.
pub open spec fn spec_trim_end(s: Seq<char>, from: int, to: int) -> int
    decreases to - from,
{
    if 0 <= from < to <= s.len() && is_ws(s[to - 1]) {
        spec_trim_end(s, from, to - 1)
    } else {
        to
    }
}

pub proof fn lemma_trim_end_bounds(s: Seq<char>, from: int, to: int)
    requires
        0 <= from <= to <= s.len(),
    ensures
        from <= spec_trim_end(s, from, to) <= to,
    decreases to - from,
{
    if from < to && is_ws(s[to - 1]) {
        lemma_trim_end_bounds(s, from, to - 1);
    }
}

pub fn trim_end(s: &str, n: usize, from: usize, to: usize) -> (r: usize)
    requires
        n == s@.len(),
        from <= to <= n,
    ensures
        r == spec_trim_end(s@, from as int, to as int),
        from <= r <= to,
{
    let mut j = to;
    loop
        invariant
            n == s@.len(),
            from <= j <= to <= n,
            spec_trim_end(s@, from as int, to as int) == spec_trim_end(s@, from as int, j as int),
        decreases j,
    {
        if j <= from {
            return j;
        }
        let c = s.get_char(j - 1);
        if !ws_char(c) {
            return j;
        }
        j -= 1;
    }
}

// ---------------------------------------------------------------------------
// Balanced scanning
// ---------------------------------------------------------------------------
/// Scan forward from `i` to the first occurrence of `close` (or of a comma,
/// when `split` is set) that stands outside every parenthesis, bracket, brace
/// and angle-bracket group and outside string literals.  `p`, `b`, `c`, `a`
/// are the current nesting depths, `instr` says whether `i` lies inside a
/// string literal.  `-` followed by `>` is passed over as an arrow, and a
/// stray `>` at angle depth zero is ignored.  `None` means the text ended or
/// a group closed without having been opened: the input is malformed.
pub open spec fn spec_scan(
    s: Seq<char>,
    i: int,
    p: int,
    b: int,
    c: int,
    a: int,
    instr: bool,
    close: char,
    split: bool,
) -> Option<int>
    decreases s.len() - i,
{
    if i < 0 || i >= s.len() {
        None
    } else if instr {
        if s[i] == '"' {
            spec_scan(s, i + 1, p, b, c, a, false, close, split)
        } else if s[i] == '\\' {
            if i + 1 < s.len() {
                spec_scan(s, i + 2, p, b, c, a, true, close, split)
            } else {
                None
            }
        } else {
            spec_scan(s, i + 1, p, b, c, a, true, close, split)
        }
    } else {
        let ch = s[i];
        if p == 0 && b == 0 && c == 0 && a == 0 && (ch == close || (split && ch == ',')) {
            Some(i)
        } else if ch == '"' {
            spec_scan(s, i + 1, p, b, c, a, true, close, split)
        } else if ch == '-' && i + 1 < s.len() && s[i + 1] == '>' {
            spec_scan(s, i + 2, p, b, c, a, false, close, split)
        } else if ch == '(' {
            spec_scan(s, i + 1, p + 1, b, c, a, false, close, split)
        } else if ch == ')' {
            if p > 0 {
                spec_scan(s, i + 1, p - 1, b, c, a, false, close, split)
            } else {
                None
            }
        } else if ch == '[' {
            spec_scan(s, i + 1, p, b + 1, c, a, false, close, split)
        } else if ch == ']' {
            if b > 0 {
                spec_scan(s, i + 1, p, b - 1, c, a, false, close, split)
            } else {
                None
            }
        } else if ch == '{' {
            spec_scan(s, i + 1, p, b, c + 1, a, false, close, split)
        } else if ch == '}' {
            if c > 0 {
                spec_scan(s, i + 1, p, b, c - 1, a, false, close, split)
            } else {
                None
            }
        } else if ch == '<' {
            spec_scan(s, i + 1, p, b, c, a + 1, false, close, split)
        } else if ch == '>' {
            if a > 0 {
                spec_scan(s, i + 1, p, b, c, a - 1, false, close, split)
            } else {
                spec_scan(s, i + 1, p, b, c, a, false, close, split)
            }
        } else {
            spec_scan(s, i + 1, p, b, c, a, false, close, split)
        }
    }
}

pub proof fn lemma_scan_bounds(
    s: Seq<char>,
    i: int,
    p: int,
    b: int,
    c: int,
    a: int,
    instr: bool,
    close: char,
    split: bool,
)
    requires
        0 <= i,
    ensures
        spec_scan(s, i, p, b, c, a, instr, close, split) is Some ==> {
            let j = spec_scan(s, i, p, b, c, a, instr, close, split)->Some_0;
            i <= j < s.len() && (s[j] == close || (split && s[j] == ','))
        },
    decreases s.len() - i,
{
    if i < s.len() {
        lemma_scan_bounds(s, i + 1, p, b, c, a, instr, close, split);
        lemma_scan_bounds(s, i + 1, p, b, c, a, !instr, close, split);
        if i + 2 <= s.len() {
            lemma_scan_bounds(s, i + 2, p, b, c, a, instr, close, split);
        }
        lemma_scan_bounds(s, i + 1, p + 1, b, c, a, instr, close, split);
        lemma_scan_bounds(s, i + 1, p - 1, b, c, a, instr, close, split);
        lemma_scan_bounds(s, i + 1, p, b + 1, c, a, instr, close, split);
        lemma_scan_bounds(s, i + 1, p, b - 1, c, a, instr, close, split);
        lemma_scan_bounds(s, i + 1, p, b, c + 1, a, instr, close, split);
        lemma_scan_bounds(s, i + 1, p, b, c - 1, a, instr, close, split);
        lemma_scan_bounds(s, i + 1, p, b, c, a + 1, instr, close, split);
        lemma_scan_bounds(s, i + 1, p, b, c, a - 1, instr, close, split);
    }
}

pub fn scan_to(s: &str, n: usize, start: usize, close: char, split: bool) -> (r: Option<usize>)
    requires
        n == s@.len(),
        start <= n,
    ensures
        match r {
            Some(j) => start <= j < n && spec_scan(
                s@,
                start as int,
                0,
                0,
                0,
                0,
                false,
                close,
                split,
            ) == Some(j as int),
            None => spec_scan(s@, start as int, 0, 0, 0, 0, false, close, split) is None,
        },
{
    let mut i = start;
    let mut p: usize = 0;
    let mut b: usize = 0;
    let mut c: usize = 0;
    let mut a: usize = 0;
    let mut instr = false;
    loop
        invariant
            n == s@.len(),
            start <= i <= n,
            p <= i,
            b <= i,
            c <= i,
            a <= i,
            spec_scan(s@, start as int, 0, 0, 0, 0, false, close, split) == spec_scan(
                s@,
                i as int,
                p as int,
                b as int,
                c as int,
                a as int,
                instr,
                close,
                split,
            ),
        decreases n - i,
    {
        if i >= n {
            return None;
        }
        let ch = s.get_char(i);
        if instr {
            if ch == '"' {
                instr = false;
                i += 1;
            } else if ch == '\\' {
                if i + 1 < n {
                    i += 2;
                } else {
                    return None;
                }
            } else {
                i += 1;
            }
        } else {
            if p == 0 && b == 0 && c == 0 && a == 0 && (ch == close || (split && ch == ',')) {
                return Some(i);
            } else if ch == '"' {
                instr = true;
                i += 1;
            } else if ch == '-' && i + 1 < n && s.get_char(i + 1) == '>' {
                i += 2;
            } else if ch == '(' {
                p += 1;
                i += 1;
            } else if ch == ')' {
                if p == 0 {
                    return None;
                }
                p -= 1;
                i += 1;
            } else if ch == '[' {
                b += 1;
                i += 1;
            } else if ch == ']' {
                if b == 0 {
                    return None;
                }
                b -= 1;
                i += 1;
            } else if ch == '{' {
                c += 1;
                i += 1;
            } else if ch == '}' {
                if c == 0 {
                    return None;
                }
                c -= 1;
                i += 1;
            } else if ch == '<' {
                a += 1;
                i += 1;
            } else if ch == '>' {
                if a > 0 {
                    a -= 1;
                }
                i += 1;
            } else {
                i += 1;
            }
        }
    }
}

// ---------------------------------------------------------------------------
// Comparing a region of the input against a keyword
// ---------------------------------------------------------------------------
pub fn region_eq(s: &str, n: usize, from: usize, to: usize, w: &str) -> (r: bool)
    requires
        n == s@.len(),
        from <= to <= n,
    ensures
        r == (s@.subrange(from as int, to as int) == w@),
{
    let wn = w.unicode_len();
    if to - from != wn {
        proof {
            assert(s@.subrange(from as int, to as int).len() == to - from);
        }
        return false;
    }
    let mut k: usize = 0;
    loop
        invariant
            n == s@.len(),
            from <= to <= n,
            wn == w@.len(),
            to - from == wn,
            k <= wn,
            forall|t: int| 0 <= t < k ==> s@.subrange(from as int, to as int)[t] == w@[t],
        decreases wn - k,
    {
        if k >= wn {
            proof {
                assert(s@.subrange(from as int, to as int) =~= w@);
            }
            return true;
        }
        if s.get_char(from + k) != w.get_char(k) {
            proof {
                assert(s@.subrange(from as int, to as int)[k as int] != w@[k as int]);
            }
            return false;
        }
        k += 1;
    }
}

} // verus!
