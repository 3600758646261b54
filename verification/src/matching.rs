//! The lexical reference matcher: the mention-set of a syntax fragment is
//! the insertion-ordered set of identifier tokens in it, and a generic
//! parameter is activated by a field exactly when the field type's
//! mention-set meets the parameter's.  Matching is lexical only — no scoping
//! or type resolution — so two declarations sharing an identifier token
//! cross-activate by design.
use crate::model::{insert_uniq, str_views};
use crate::scan::{
    ident_end, ident_start_char, ident_cont_char, is_digit, is_ident_start,
    lemma_ident_end_bounds, spec_ident_end,
};
use vstd::prelude::*;
use vstd::string::*;

verus! {

// ---------------------------------------------------------------------------
// String literals are skipped, not mentioned
// ---------------------------------------------------------------------------
/// Position just after the closing quote of a string literal whose body
/// starts at `i`, or the end of the text if it never closes.
pub open spec fn spec_str_end(s: Seq<char>, i: int) -> int
    decreases s.len() - i,
{
    if i < 0 || i >= s.len() {
        s.len() as int
    } else if s[i] == '"' {
        i + 1
    } else if s[i] == '\\' && i + 1 < s.len() {
        spec_str_end(s, i + 2)
    } else {
        spec_str_end(s, i + 1)
    }
}

pub proof fn lemma_str_end_bounds(s: Seq<char>, i: int)
    requires
        0 <= i <= s.len(),
    ensures
        i <= spec_str_end(s, i) <= s.len(),
    decreases s.len() - i,
{
    if i < s.len() && s[i] != '"' {
        if s[i] == '\\' && i + 1 < s.len() {
            lemma_str_end_bounds(s, i + 2);
        } else {
            lemma_str_end_bounds(s, i + 1);
        }
    }
}

fn str_lit_end(s: &str, n: usize, start: usize) -> (r: usize)
    requires
        n == s@.len(),
        start <= n,
    ensures
        r == spec_str_end(s@, start as int),
        start <= r <= n,
{
    let mut i = start;
    loop
        invariant
            n == s@.len(),
            start <= i <= n,
            spec_str_end(s@, start as int) == spec_str_end(s@, i as int),
        decreases n - i,
    {
        if i >= n {
            return n;
        }
        let c = s.get_char(i);
        if c == '"' {
            return i + 1;
        }
        if c == '\\' && i + 1 < n {
            i += 2;
        } else {
            i += 1;
        }
    }
}

// ---------------------------------------------------------------------------
// Mention-sets
// ---------------------------------------------------------------------------
/// Walk the text: an identifier run starting with a letter or `_` joins the
/// set; a run starting with a digit is a numeric token and is skipped whole
/// (so a literal's suffix is no identifier); a string literal is skipped;
/// everything else is punctuation.
pub open spec fn mentions_from(s: Seq<char>, i: int, acc: Seq<Seq<char>>) -> Seq<Seq<char>>
    decreases s.len() - i,
{
    if i < 0 || i >= s.len() {
        acc
    } else if is_ident_start(s[i]) {
        proof {
            lemma_ident_end_bounds(s, i + 1);
        }
        mentions_from(s, spec_ident_end(s, i), insert_uniq(acc, s.subrange(i, spec_ident_end(s, i))))
    } else if is_digit(s[i]) {
        proof {
            lemma_ident_end_bounds(s, i + 1);
        }
        mentions_from(s, spec_ident_end(s, i), acc)
    } else if s[i] == '"' {
        proof {
            lemma_str_end_bounds(s, i + 1);
        }
        mentions_from(s, spec_str_end(s, i + 1), acc)
    } else {
        mentions_from(s, i + 1, acc)
    }
}

/// The mention-set of a fragment: every identifier token in it, first-seen
/// order, deduplicated.
pub open spec fn mentions(s: Seq<char>) -> Seq<Seq<char>> {
    mentions_from(s, 0, Seq::empty())
}

pub fn mentions_of(s: &str) -> (r: Vec<String>)
    ensures
        str_views(r@) == mentions(s@),
{
    let n = s.unicode_len();
    let mut acc: Vec<String> = Vec::new();
    let mut i: usize = 0;
    proof {
        assert(str_views(acc@) =~= Seq::<Seq<char>>::empty());
    }
    loop
        invariant
            n == s@.len(),
            i <= n,
            mentions(s@) == mentions_from(s@, i as int, str_views(acc@)),
        decreases n - i,
    {
        if i >= n {
            return acc;
        }
        let c = s.get_char(i);
        if ident_start_char(c) {
            let en = ident_end(s, n, i);
            let word = s.substring_char(i, en).to_owned();
            let ghost pre = str_views(acc@);
            let ghost wv = word@;
            if !crate::model::contains_string(&acc, &word) {
                acc.push(word);
                proof {
                    assert(str_views(acc@) =~= pre.push(wv));
                }
            }
            proof {
                lemma_ident_end_bounds(s@, i + 1 as int);
            }
            i = en;
        } else if ident_cont_char(c) {
            let en = ident_end(s, n, i);
            proof {
                lemma_ident_end_bounds(s@, i + 1 as int);
            }
            i = en;
        } else if c == '"' {
            i = str_lit_end(s, n, i + 1);
        } else {
            i += 1;
        }
    }
}

// ---------------------------------------------------------------------------
// Intersection of mention-sets
// ---------------------------------------------------------------------------
/// Two mention-sets meet when they share an identifier.
pub open spec fn lists_intersect(a: Seq<Seq<char>>, b: Seq<Seq<char>>) -> bool {
    exists|x: Seq<char>| a.contains(x) && b.contains(x)
}

// ---------------------------------------------------------------------------
// Matched generic parameters of one fragment
// ---------------------------------------------------------------------------
/// Fold one mentioned identifier over the generic parameters, in schema
/// order: each parameter whose mention-set holds the identifier joins the
/// matched list.
pub open spec fn add_gen_matches(
    acc: Seq<int>,
    ident: Seq<char>,
    gm: Seq<Seq<Seq<char>>>,
    k: int,
) -> Seq<int>
    decreases gm.len() - k,
{
    if k < 0 || k >= gm.len() {
        acc
    } else {
        add_gen_matches(
            if gm[k].contains(ident) {
                insert_uniq(acc, k)
            } else {
                acc
            },
            ident,
            gm,
            k + 1,
        )
    }
}

/// Walk a fragment's mention-set in order; the matched generic parameters
/// accumulate in first-activation order.
pub open spec fn gen_matches_from(
    tym: Seq<Seq<char>>,
    gm: Seq<Seq<Seq<char>>>,
    i: int,
    acc: Seq<int>,
) -> Seq<int>
    decreases tym.len() - i,
{
    if i < 0 || i >= tym.len() {
        acc
    } else {
        gen_matches_from(tym, gm, i + 1, add_gen_matches(acc, tym[i], gm, 0))
    }
}

/// The generic parameters (as indices into the schema's generic list) that a
/// fragment with mention-set `tym` activates, in first-activation order.
pub open spec fn gen_matches(tym: Seq<Seq<char>>, gm: Seq<Seq<Seq<char>>>) -> Seq<int> {
    gen_matches_from(tym, gm, 0, Seq::empty())
}

pub open spec fn usizes_view(v: Seq<usize>) -> Seq<int> {
    v.map_values(|x: usize| x as int)
}

pub open spec fn str_views2(v: Seq<Vec<String>>) -> Seq<Seq<Seq<char>>> {
    v.map_values(|x: Vec<String>| str_views(x@))
}

pub fn contains_usize(v: &Vec<usize>, x: usize) -> (r: bool)
    ensures
        r == usizes_view(v@).contains(x as int),
{
    let mut i: usize = 0;
    while i < v.len()
        invariant
            i <= v@.len(),
            forall|k: int| 0 <= k < i ==> v@[k] != x,
        decreases v@.len() - i,
    {
        if v[i] == x {
            proof {
                assert(usizes_view(v@)[i as int] == x as int);
            }
            return true;
        }
        i += 1;
    }
    proof {
        assert(forall|k: int| 0 <= k < usizes_view(v@).len() ==> usizes_view(v@)[k] != x as int);
    }
    false
}

pub fn push_uniq_usize(v: &mut Vec<usize>, x: usize)
    ensures
        usizes_view(final(v)@) == insert_uniq(usizes_view(old(v)@), x as int),
{
    if !contains_usize(v, x) {
        let ghost before = v@;
        v.push(x);
        proof {
            assert(usizes_view(v@) =~= usizes_view(before).push(x as int));
        }
    }
}

/// The executable matcher: the indices of the generic parameters whose
/// mention-sets meet the given fragment mention-set, in activation order.
pub fn generic_matches(tym: &Vec<String>, gm: &Vec<Vec<String>>) -> (r: Vec<usize>)
    ensures
        usizes_view(r@) == gen_matches(str_views(tym@), str_views2(gm@)),
{
    let ghost tv = str_views(tym@);
    let ghost gv = str_views2(gm@);
    let mut acc: Vec<usize> = Vec::new();
    let mut i: usize = 0;
    proof {
        assert(usizes_view(acc@) =~= Seq::<int>::empty());
    }
    while i < tym.len()
        invariant
            i <= tym@.len(),
            tv == str_views(tym@),
            gv == str_views2(gm@),
            gen_matches(tv, gv) == gen_matches_from(tv, gv, i as int, usizes_view(acc@)),
        decreases tym@.len() - i,
    {
        let mut k: usize = 0;
        while k < gm.len()
            invariant
                i < tym@.len(),
                k <= gm@.len(),
                tv == str_views(tym@),
                gv == str_views2(gm@),
                gen_matches(tv, gv) == gen_matches_from(
                    tv,
                    gv,
                    i + 1 as int,
                    add_gen_matches(usizes_view(acc@), tv[i as int], gv, k as int),
                ),
            decreases gm@.len() - k,
        {
            let ghost pre = usizes_view(acc@);
            proof {
                assert(gv[k as int] == str_views(gm@[k as int]@));
                assert(tv[i as int] == tym@[i as int]@);
            }
            if crate::model::contains_string(&gm[k], &tym[i]) {
                push_uniq_usize(&mut acc, k);
            }
            k += 1;
        }
        i += 1;
    }
    acc
}

} // verus!
