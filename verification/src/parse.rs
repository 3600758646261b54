//! Parsing the schema text and the variant table into the normalized model.
//!
//! The grammar: optional attributes, an optional visibility marker, an
//! optional `<`-bracketed generic-parameter list, an optional constraint
//! clause introduced by `where`, a braced comma-separated field list, a fat
//! arrow, and a braced table of `Name => [ action(args), ... ]` entries.
//! Types, attributes and constraint predicates are captured as raw
//! bracket-balanced text; commas split entries only outside every group.
//! Every executable function is proved equal to a specification-level parse
//! of the text, so success, failure and the parsed model are all pinned down.
use crate::model::{
    dedup_fields, str_views, field_views, action_views, variant_spec_views, ActionV, DeriveError,
    ErrV, Field, FieldV, Schema, SchemaV, VariantSpec, VariantSpecV, Action,
};
use crate::scan::{
    ident_end, ident_start_char, is_ident_start, lemma_scan_bounds, lemma_skip_ws_bounds,
    region_eq, scan_to, skip_ws, spec_ident_end, spec_scan, spec_skip_ws, spec_trim_end, trim_end,
};
use vstd::prelude::*;
use vstd::string::*;

verus! {

// ---------------------------------------------------------------------------
// Splitting a bracketed region into comma-separated pieces
// ---------------------------------------------------------------------------
pub open spec fn pairs_view(ps: Seq<(usize, usize)>) -> Seq<(int, int)> {
    ps.map_values(|p: (usize, usize)| (p.0 as int, p.1 as int))
}

/// A region that holds only whitespace.
pub open spec fn piece_blank(s: Seq<char>, from: int, to: int) -> bool {
    spec_skip_ws(s, from) >= to
}

/// The raw comma-separated regions between `i` and the first unmatched
/// `close`, each region running from just after the previous separator to
/// the next top-level comma or to `close` itself.  The returned position is
/// that of `close`.  `None` means no such `close` follows: malformed input.
pub open spec fn split_from(s: Seq<char>, i: int, close: char) -> Option<(Seq<(int, int)>, int)>
    decreases s.len() - i,
{
    if i < 0 {
        None
    } else {
        match spec_scan(s, i, 0, 0, 0, 0, false, close, true) {
            None => None,
            Some(j) => if s[j] == close {
                Some((seq![(i, j)], j))
            } else {
                proof {
                    lemma_scan_bounds(s, i, 0, 0, 0, 0, false, close, true);
                }
                match split_from(s, j + 1, close) {
                    None => None,
                    Some((rest, end)) => Some((seq![(i, j)] + rest, end)),
                }
            },
        }
    }
}

/// `split_from`, with a blank final region dropped (a trailing comma, or an
/// empty list).
pub open spec fn split_list(s: Seq<char>, i: int, close: char) -> Option<(Seq<(int, int)>, int)> {
    match split_from(s, i, close) {
        None => None,
        Some((ps, end)) => if ps.len() > 0 && piece_blank(s, ps.last().0, ps.last().1) {
            Some((ps.drop_last(), end))
        } else {
            Some((ps, end))
        },
    }
}

pub fn split_pieces(s: &str, n: usize, start: usize, close: char) -> (r: Option<
    (Vec<(usize, usize)>, usize),
>)
    requires
        n == s@.len(),
        start <= n,
    ensures
        match r {
            Some((ps, end)) => {
                &&& split_list(s@, start as int, close) == Some((pairs_view(ps@), end as int))
                &&& start <= end < n
                &&& forall|k: int|
                    0 <= k < ps@.len() ==> start <= #[trigger] ps@[k].0 <= ps@[k].1 <= end
            },
            None => split_list(s@, start as int, close) is None,
        },
{
    let mut acc: Vec<(usize, usize)> = Vec::new();
    let mut cur = start;
    proof {
        assert(pairs_view(acc@) =~= Seq::<(int, int)>::empty());
    }
    loop
        invariant
            n == s@.len(),
            start <= cur <= n,
            forall|k: int| 0 <= k < acc@.len() ==> start <= #[trigger] acc@[k].0 <= acc@[k].1 < cur,
            (match split_from(s@, cur as int, close) {
                Some(re) => split_from(s@, start as int, close) == Some(
                    (pairs_view(acc@) + re.0, re.1),
                ),
                None => split_from(s@, start as int, close) is None,
            }),
        decreases n - cur,
    {
        let j = match scan_to(s, n, cur, close, true) {
            Some(j) => j,
            None => {
                return None;
            },
        };
        let ghost pre = pairs_view(acc@);
        if s.get_char(j) == close {
            proof {
                assert(split_from(s@, cur as int, close) == Some(
                    (seq![(cur as int, j as int)], j as int),
                ));
                assert(pre + seq![(cur as int, j as int)] =~= pairs_view(
                    acc@.push((cur, j)),
                ));
            }
            acc.push((cur, j));
            proof {
                assert(split_from(s@, start as int, close) == Some(
                    (pairs_view(acc@), j as int),
                ));
                assert(pairs_view(acc@).last() == (cur as int, j as int));
                assert(forall|k: int|
                    0 <= k < acc@.len() ==> start <= #[trigger] acc@[k].0 <= acc@[k].1 <= j);
            }
            // drop a blank final region: a trailing comma or an empty list
            let lastp = acc[acc.len() - 1];
            let sw = skip_ws(s, n, lastp.0);
            if sw >= lastp.1 {
                let ghost full = pairs_view(acc@);
                acc.pop();
                proof {
                    assert(pairs_view(acc@) =~= full.drop_last());
                    assert(piece_blank(s@, full.last().0, full.last().1));
                    assert(split_list(s@, start as int, close) == Some(
                        (pairs_view(acc@), j as int),
                    ));
                }
            } else {
                proof {
                    assert(!piece_blank(s@, pairs_view(acc@).last().0, pairs_view(acc@).last().1));
                    assert(split_list(s@, start as int, close) == Some(
                        (pairs_view(acc@), j as int),
                    ));
                }
            }
            return Some((acc, j));
        } else {
            proof {
                lemma_scan_bounds(s@, cur as int, 0, 0, 0, 0, false, close, true);
                assert(s@[j as int] == ',');
                assert(pre + seq![(cur as int, j as int)] =~= pairs_view(acc@.push((cur, j))));
                if split_from(s@, j + 1 as int, close) is Some {
                    let re = split_from(s@, j + 1 as int, close)->Some_0;
                    assert(pre + (seq![(cur as int, j as int)] + re.0) =~= (pre + seq![
                        (cur as int, j as int),
                    ]) + re.0);
                }
            }
            acc.push((cur, j));
            proof {
                assert(acc@.last() == (cur, j));
                assert(cur <= j);
                assert(forall|k: int|
                    0 <= k < acc@.len() - 1 ==> start <= #[trigger] acc@[k].0 <= acc@[k].1 < j
                        + 1);
                assert(forall|k: int|
                    0 <= k < acc@.len() ==> start <= #[trigger] acc@[k].0 <= acc@[k].1 < j + 1);
            }
            cur = j + 1;
        }
    }
}

// ---------------------------------------------------------------------------
// Single pieces
// ---------------------------------------------------------------------------
/// An identifier standing alone in the region, whitespace around it.
pub open spec fn parse_ident_piece(s: Seq<char>, from: int, to: int) -> Option<Seq<char>> {
    if !(0 <= from <= to <= s.len()) {
        None
    } else {
        let st = spec_skip_ws(s, from);
        let en = spec_ident_end(s, st);
        if st < to && is_ident_start(s[st]) && en <= to && spec_skip_ws(s, en) == to {
            Some(s.subrange(st, en))
        } else {
            None
        }
    }
}

pub fn ident_piece(s: &str, n: usize, from: usize, to: usize) -> (r: Option<String>)
    requires
        n == s@.len(),
        from <= to <= n,
    ensures
        match r {
            Some(x) => parse_ident_piece(s@, from as int, to as int) == Some(x@),
            None => parse_ident_piece(s@, from as int, to as int) is None,
        },
{
    let st = skip_ws(s, n, from);
    let en = ident_end(s, n, st);
    if st < to && en <= to {
        if ident_start_char(s.get_char(st)) {
            if skip_ws(s, n, en) == to {
                return Some(s.substring_char(st, en).to_owned());
            }
        }
    }
    None
}

/// The region with surrounding whitespace trimmed; must be non-blank.
pub open spec fn parse_raw_piece(s: Seq<char>, from: int, to: int) -> Option<Seq<char>> {
    if !(0 <= from <= to <= s.len()) {
        None
    } else {
        let st = spec_skip_ws(s, from);
        if st < to {
            Some(s.subrange(st, spec_trim_end(s, st, to)))
        } else {
            None
        }
    }
}

pub fn raw_piece(s: &str, n: usize, from: usize, to: usize) -> (r: Option<String>)
    requires
        n == s@.len(),
        from <= to <= n,
    ensures
        match r {
            Some(x) => parse_raw_piece(s@, from as int, to as int) == Some(x@),
            None => parse_raw_piece(s@, from as int, to as int) is None,
        },
{
    let st = skip_ws(s, n, from);
    if st < to {
        let en = trim_end(s, n, st, to);
        Some(s.substring_char(st, en).to_owned())
    } else {
        None
    }
}

/// One `#[...]` attribute filling the whole region, captured verbatim.
pub open spec fn parse_attr_piece(s: Seq<char>, from: int, to: int) -> Option<Seq<char>> {
    if !(0 <= from <= to <= s.len()) {
        None
    } else {
        let st = spec_skip_ws(s, from);
        if st < to && s[st] == '#' {
            let br = spec_skip_ws(s, st + 1);
            if br < to && s[br] == '[' {
                match spec_scan(s, br + 1, 0, 0, 0, 0, false, ']', false) {
                    None => None,
                    Some(j) => if j < to && spec_skip_ws(s, j + 1) == to {
                        Some(s.subrange(st, j + 1))
                    } else {
                        None
                    },
                }
            } else {
                None
            }
        } else {
            None
        }
    }
}

pub fn attr_piece(s: &str, n: usize, from: usize, to: usize) -> (r: Option<String>)
    requires
        n == s@.len(),
        from <= to <= n,
    ensures
        match r {
            Some(x) => parse_attr_piece(s@, from as int, to as int) == Some(x@),
            None => parse_attr_piece(s@, from as int, to as int) is None,
        },
{
    let st = skip_ws(s, n, from);
    if st < to && s.get_char(st) == '#' {
        let br = skip_ws(s, n, st + 1);
        if br < to && s.get_char(br) == '[' {
            match scan_to(s, n, br + 1, ']', false) {
                None => None,
                Some(j) => {
                    if j < to && skip_ws(s, n, j + 1) == to {
                        Some(s.substring_char(st, j + 1).to_owned())
                    } else {
                        None
                    }
                },
            }
        } else {
            None
        }
    } else {
        None
    }
}

// ---------------------------------------------------------------------------
// A leading run of attributes
// ---------------------------------------------------------------------------
/// Capture `#[...]` groups from `i` on, each appended to `acc`, and return
/// the captures with the position of the first following non-whitespace
/// character (or the end of the whitespace run, at the end of the region).
pub open spec fn parse_field_attrs(s: Seq<char>, i: int, to: int, acc: Seq<Seq<char>>) -> Option<
    (Seq<Seq<char>>, int),
>
    decreases to - i,
{
    if !(0 <= i <= to <= s.len()) {
        None
    } else {
        let st = spec_skip_ws(s, i);
        if st < to && s[st] == '#' {
            let br = spec_skip_ws(s, st + 1);
            if br < to && s[br] == '[' {
                match spec_scan(s, br + 1, 0, 0, 0, 0, false, ']', false) {
                    None => None,
                    Some(j) => if j < to {
                        proof {
                            lemma_skip_ws_bounds(s, i);
                            lemma_skip_ws_bounds(s, st + 1);
                            lemma_scan_bounds(s, br + 1, 0, 0, 0, 0, false, ']', false);
                        }
                        parse_field_attrs(s, j + 1, to, acc.push(s.subrange(st, j + 1)))
                    } else {
                        None
                    },
                }
            } else {
                None
            }
        } else {
            Some((acc, st))
        }
    }
}

pub fn field_attrs(s: &str, n: usize, start: usize, to: usize) -> (r: Option<(Vec<String>, usize)>)
    requires
        n == s@.len(),
        start <= to <= n,
    ensures
        match r {
            Some((ats, end)) => parse_field_attrs(s@, start as int, to as int, Seq::empty())
                == Some((str_views(ats@), end as int)) && end <= n,
            None => parse_field_attrs(s@, start as int, to as int, Seq::empty()) is None,
        },
{
    let mut acc: Vec<String> = Vec::new();
    let mut i = start;
    proof {
        assert(str_views(acc@) =~= Seq::<Seq<char>>::empty());
    }
    loop
        invariant
            n == s@.len(),
            start <= i <= to <= n,
            parse_field_attrs(s@, start as int, to as int, Seq::empty()) == parse_field_attrs(
                s@,
                i as int,
                to as int,
                str_views(acc@),
            ),
        decreases to - i,
    {
        let st = skip_ws(s, n, i);
        if !(st < to && s.get_char(st) == '#') {
            return Some((acc, st));
        }
        let br = skip_ws(s, n, st + 1);
        if !(br < to && s.get_char(br) == '[') {
            return None;
        }
        let j = match scan_to(s, n, br + 1, ']', false) {
            Some(j) => j,
            None => {
                return None;
            },
        };
        if !(j < to) {
            return None;
        }
        let cap = s.substring_char(st, j + 1).to_owned();
        let ghost pre = str_views(acc@);
        acc.push(cap);
        proof {
            assert(str_views(acc@) =~= pre.push(s@.subrange(st as int, j + 1 as int)));
        }
        i = j + 1;
    }
}

// ---------------------------------------------------------------------------
// Fields
// ---------------------------------------------------------------------------
/// One `name: type` field, with optional leading attributes; the type text
/// is captured raw, trimmed, and must be non-empty.
pub open spec fn parse_field_piece(s: Seq<char>, from: int, to: int) -> Option<FieldV> {
    if !(0 <= from <= to <= s.len()) {
        None
    } else {
        match parse_field_attrs(s, from, to, Seq::empty()) {
            None => None,
            Some((attrs, st)) => {
                let en = spec_ident_end(s, st);
                if st < to && is_ident_start(s[st]) && en <= to {
                    let co = spec_skip_ws(s, en);
                    if co < to && s[co] == ':' {
                        let tst = spec_skip_ws(s, co + 1);
                        if tst < to {
                            Some(
                                FieldV {
                                    attrs,
                                    name: s.subrange(st, en),
                                    ty: s.subrange(tst, spec_trim_end(s, tst, to)),
                                },
                            )
                        } else {
                            None
                        }
                    } else {
                        None
                    }
                } else {
                    None
                }
            },
        }
    }
}

pub fn field_piece(s: &str, n: usize, from: usize, to: usize) -> (r: Option<Field>)
    requires
        n == s@.len(),
        from <= to <= n,
    ensures
        match r {
            Some(f) => parse_field_piece(s@, from as int, to as int) == Some(f@),
            None => parse_field_piece(s@, from as int, to as int) is None,
        },
{
    let (attrs, st) = match field_attrs(s, n, from, to) {
        Some(p) => p,
        None => {
            return None;
        },
    };
    if !(st < to) {
        return None;
    }
    if !ident_start_char(s.get_char(st)) {
        return None;
    }
    let en = ident_end(s, n, st);
    if !(en <= to) {
        return None;
    }
    let co = skip_ws(s, n, en);
    if !(co < to && s.get_char(co) == ':') {
        return None;
    }
    let tst = skip_ws(s, n, co + 1);
    if !(tst < to) {
        return None;
    }
    let ten = trim_end(s, n, tst, to);
    let name = s.substring_char(st, en).to_owned();
    let ty = s.substring_char(tst, ten).to_owned();
    Some(Field { attrs, name, ty })
}

// ---------------------------------------------------------------------------
// Folding a parser over a piece list
// ---------------------------------------------------------------------------
pub open spec fn idents_of_pieces(s: Seq<char>, ps: Seq<(int, int)>, acc: Seq<Seq<char>>) -> Option<
    Seq<Seq<char>>,
>
    decreases ps.len(),
{
    if ps.len() == 0 {
        Some(acc)
    } else {
        match parse_ident_piece(s, ps[0].0, ps[0].1) {
            None => None,
            Some(x) => idents_of_pieces(s, ps.drop_first(), acc.push(x)),
        }
    }
}

pub open spec fn raws_of_pieces(s: Seq<char>, ps: Seq<(int, int)>, acc: Seq<Seq<char>>) -> Option<
    Seq<Seq<char>>,
>
    decreases ps.len(),
{
    if ps.len() == 0 {
        Some(acc)
    } else {
        match parse_raw_piece(s, ps[0].0, ps[0].1) {
            None => None,
            Some(x) => raws_of_pieces(s, ps.drop_first(), acc.push(x)),
        }
    }
}

pub open spec fn attrs_of_pieces(s: Seq<char>, ps: Seq<(int, int)>, acc: Seq<Seq<char>>) -> Option<
    Seq<Seq<char>>,
>
    decreases ps.len(),
{
    if ps.len() == 0 {
        Some(acc)
    } else {
        match parse_attr_piece(s, ps[0].0, ps[0].1) {
            None => None,
            Some(x) => attrs_of_pieces(s, ps.drop_first(), acc.push(x)),
        }
    }
}

pub open spec fn fields_of_pieces(s: Seq<char>, ps: Seq<(int, int)>, acc: Seq<FieldV>) -> Option<
    Seq<FieldV>,
>
    decreases ps.len(),
{
    if ps.len() == 0 {
        Some(acc)
    } else {
        match parse_field_piece(s, ps[0].0, ps[0].1) {
            None => None,
            Some(x) => fields_of_pieces(s, ps.drop_first(), acc.push(x)),
        }
    }
}

pub fn idents_pieces(s: &str, n: usize, ps: &Vec<(usize, usize)>) -> (r: Option<Vec<String>>)
    requires
        n == s@.len(),
        forall|k: int| 0 <= k < ps@.len() ==> #[trigger] ps@[k].0 <= ps@[k].1 <= n,
    ensures
        match r {
            Some(v) => idents_of_pieces(s@, pairs_view(ps@), Seq::empty()) == Some(str_views(v@)),
            None => idents_of_pieces(s@, pairs_view(ps@), Seq::empty()) is None,
        },
{
    let mut acc: Vec<String> = Vec::new();
    let mut k: usize = 0;
    proof {
        assert(str_views(acc@) =~= Seq::<Seq<char>>::empty());
        assert(pairs_view(ps@).skip(0) =~= pairs_view(ps@));
    }
    while k < ps.len()
        invariant
            n == s@.len(),
            k <= ps@.len(),
            forall|t: int| 0 <= t < ps@.len() ==> #[trigger] ps@[t].0 <= ps@[t].1 <= n,
            idents_of_pieces(s@, pairs_view(ps@), Seq::empty()) == idents_of_pieces(
                s@,
                pairs_view(ps@).skip(k as int),
                str_views(acc@),
            ),
        decreases ps@.len() - k,
    {
        let p = ps[k];
        proof {
            assert(pairs_view(ps@).skip(k as int)[0] == pairs_view(ps@)[k as int]);
            assert(pairs_view(ps@).skip(k as int).drop_first() =~= pairs_view(ps@).skip(
                k + 1 as int,
            ));
        }
        let x = match ident_piece(s, n, p.0, p.1) {
            Some(x) => x,
            None => {
                return None;
            },
        };
        let ghost pre = str_views(acc@);
        let ghost xv = x@;
        acc.push(x);
        proof {
            assert(str_views(acc@) =~= pre.push(xv));
        }
        k += 1;
    }
    proof {
        assert(pairs_view(ps@).skip(ps@.len() as int) =~= Seq::<(int, int)>::empty());
    }
    Some(acc)
}

pub fn raws_pieces(s: &str, n: usize, ps: &Vec<(usize, usize)>) -> (r: Option<Vec<String>>)
    requires
        n == s@.len(),
        forall|k: int| 0 <= k < ps@.len() ==> #[trigger] ps@[k].0 <= ps@[k].1 <= n,
    ensures
        match r {
            Some(v) => raws_of_pieces(s@, pairs_view(ps@), Seq::empty()) == Some(str_views(v@)),
            None => raws_of_pieces(s@, pairs_view(ps@), Seq::empty()) is None,
        },
{
    let mut acc: Vec<String> = Vec::new();
    let mut k: usize = 0;
    proof {
        assert(str_views(acc@) =~= Seq::<Seq<char>>::empty());
        assert(pairs_view(ps@).skip(0) =~= pairs_view(ps@));
    }
    while k < ps.len()
        invariant
            n == s@.len(),
            k <= ps@.len(),
            forall|t: int| 0 <= t < ps@.len() ==> #[trigger] ps@[t].0 <= ps@[t].1 <= n,
            raws_of_pieces(s@, pairs_view(ps@), Seq::empty()) == raws_of_pieces(
                s@,
                pairs_view(ps@).skip(k as int),
                str_views(acc@),
            ),
        decreases ps@.len() - k,
    {
        let p = ps[k];
        proof {
            assert(pairs_view(ps@).skip(k as int)[0] == pairs_view(ps@)[k as int]);
            assert(pairs_view(ps@).skip(k as int).drop_first() =~= pairs_view(ps@).skip(
                k + 1 as int,
            ));
        }
        let x = match raw_piece(s, n, p.0, p.1) {
            Some(x) => x,
            None => {
                return None;
            },
        };
        let ghost pre = str_views(acc@);
        let ghost xv = x@;
        acc.push(x);
        proof {
            assert(str_views(acc@) =~= pre.push(xv));
        }
        k += 1;
    }
    proof {
        assert(pairs_view(ps@).skip(ps@.len() as int) =~= Seq::<(int, int)>::empty());
    }
    Some(acc)
}

pub fn attrs_pieces(s: &str, n: usize, ps: &Vec<(usize, usize)>) -> (r: Option<Vec<String>>)
    requires
        n == s@.len(),
        forall|k: int| 0 <= k < ps@.len() ==> #[trigger] ps@[k].0 <= ps@[k].1 <= n,
    ensures
        match r {
            Some(v) => attrs_of_pieces(s@, pairs_view(ps@), Seq::empty()) == Some(str_views(v@)),
            None => attrs_of_pieces(s@, pairs_view(ps@), Seq::empty()) is None,
        },
{
    let mut acc: Vec<String> = Vec::new();
    let mut k: usize = 0;
    proof {
        assert(str_views(acc@) =~= Seq::<Seq<char>>::empty());
        assert(pairs_view(ps@).skip(0) =~= pairs_view(ps@));
    }
    while k < ps.len()
        invariant
            n == s@.len(),
            k <= ps@.len(),
            forall|t: int| 0 <= t < ps@.len() ==> #[trigger] ps@[t].0 <= ps@[t].1 <= n,
            attrs_of_pieces(s@, pairs_view(ps@), Seq::empty()) == attrs_of_pieces(
                s@,
                pairs_view(ps@).skip(k as int),
                str_views(acc@),
            ),
        decreases ps@.len() - k,
    {
        let p = ps[k];
        proof {
            assert(pairs_view(ps@).skip(k as int)[0] == pairs_view(ps@)[k as int]);
            assert(pairs_view(ps@).skip(k as int).drop_first() =~= pairs_view(ps@).skip(
                k + 1 as int,
            ));
        }
        let x = match attr_piece(s, n, p.0, p.1) {
            Some(x) => x,
            None => {
                return None;
            },
        };
        let ghost pre = str_views(acc@);
        let ghost xv = x@;
        acc.push(x);
        proof {
            assert(str_views(acc@) =~= pre.push(xv));
        }
        k += 1;
    }
    proof {
        assert(pairs_view(ps@).skip(ps@.len() as int) =~= Seq::<(int, int)>::empty());
    }
    Some(acc)
}

pub fn fields_pieces(s: &str, n: usize, ps: &Vec<(usize, usize)>) -> (r: Option<Vec<Field>>)
    requires
        n == s@.len(),
        forall|k: int| 0 <= k < ps@.len() ==> #[trigger] ps@[k].0 <= ps@[k].1 <= n,
    ensures
        match r {
            Some(v) => fields_of_pieces(s@, pairs_view(ps@), Seq::empty()) == Some(field_views(v@)),
            None => fields_of_pieces(s@, pairs_view(ps@), Seq::empty()) is None,
        },
{
    let mut acc: Vec<Field> = Vec::new();
    let mut k: usize = 0;
    proof {
        assert(field_views(acc@) =~= Seq::<FieldV>::empty());
        assert(pairs_view(ps@).skip(0) =~= pairs_view(ps@));
    }
    while k < ps.len()
        invariant
            n == s@.len(),
            k <= ps@.len(),
            forall|t: int| 0 <= t < ps@.len() ==> #[trigger] ps@[t].0 <= ps@[t].1 <= n,
            fields_of_pieces(s@, pairs_view(ps@), Seq::empty()) == fields_of_pieces(
                s@,
                pairs_view(ps@).skip(k as int),
                field_views(acc@),
            ),
        decreases ps@.len() - k,
    {
        let p = ps[k];
        proof {
            assert(pairs_view(ps@).skip(k as int)[0] == pairs_view(ps@)[k as int]);
            assert(pairs_view(ps@).skip(k as int).drop_first() =~= pairs_view(ps@).skip(
                k + 1 as int,
            ));
        }
        let x = match field_piece(s, n, p.0, p.1) {
            Some(x) => x,
            None => {
                return None;
            },
        };
        let ghost pre = field_views(acc@);
        let ghost xv = x@;
        acc.push(x);
        proof {
            assert(field_views(acc@) =~= pre.push(xv));
        }
        k += 1;
    }
    proof {
        assert(pairs_view(ps@).skip(ps@.len() as int) =~= Seq::<(int, int)>::empty());
    }
    Some(acc)
}

// ---------------------------------------------------------------------------
// Actions
// ---------------------------------------------------------------------------
/// One `action(args)` call.  `omit`, `include`, `attr`, `upsert` and
/// `as_tuple` are the recognized actions; any other name is the fatal
/// `Unknown` error, carrying that name.
pub open spec fn parse_action_piece(s: Seq<char>, from: int, to: int) -> Result<ActionV, ErrV> {
    if !(0 <= from <= to <= s.len()) {
        Err(ErrV::Malformed)
    } else {
        let st = spec_skip_ws(s, from);
        let en = spec_ident_end(s, st);
        if st < to && is_ident_start(s[st]) && en <= to {
            let name = s.subrange(st, en);
            let op = spec_skip_ws(s, en);
            if op < to && s[op] == '(' {
                match split_list(s, op + 1, ')') {
                    None => Err(ErrV::Malformed),
                    Some((ps, end)) => if end < to && spec_skip_ws(s, end + 1) == to {
                        if name == "omit"@ {
                            match idents_of_pieces(s, ps, Seq::empty()) {
                                None => Err(ErrV::Malformed),
                                Some(ids) => Ok(ActionV::Omit(ids)),
                            }
                        } else if name == "include"@ {
                            match idents_of_pieces(s, ps, Seq::empty()) {
                                None => Err(ErrV::Malformed),
                                Some(ids) => Ok(ActionV::Include(ids)),
                            }
                        } else if name == "attr"@ {
                            match attrs_of_pieces(s, ps, Seq::empty()) {
                                None => Err(ErrV::Malformed),
                                Some(ats) => Ok(ActionV::Attr(ats)),
                            }
                        } else if name == "upsert"@ {
                            match fields_of_pieces(s, ps, Seq::empty()) {
                                None => Err(ErrV::Malformed),
                                Some(fs) => Ok(ActionV::Upsert(fs)),
                            }
                        } else if name == "as_tuple"@ {
                            if ps.len() == 0 {
                                Ok(ActionV::AsTuple)
                            } else {
                                Err(ErrV::Malformed)
                            }
                        } else {
                            Err(ErrV::Unknown(name))
                        }
                    } else {
                        Err(ErrV::Malformed)
                    },
                }
            } else {
                Err(ErrV::Malformed)
            }
        } else {
            Err(ErrV::Malformed)
        }
    }
}

pub fn action_piece(s: &str, n: usize, from: usize, to: usize) -> (r: Result<Action, DeriveError>)
    requires
        n == s@.len(),
        from <= to <= n,
    ensures
        match r {
            Ok(a) => parse_action_piece(s@, from as int, to as int) == Ok::<ActionV, ErrV>(a@),
            Err(e) => parse_action_piece(s@, from as int, to as int) == Err::<ActionV, ErrV>(e@),
        },
{
    let st = skip_ws(s, n, from);
    if !(st < to) {
        return Err(DeriveError::MalformedSchema);
    }
    if !ident_start_char(s.get_char(st)) {
        return Err(DeriveError::MalformedSchema);
    }
    let en = ident_end(s, n, st);
    if !(en <= to) {
        return Err(DeriveError::MalformedSchema);
    }
    let op = skip_ws(s, n, en);
    if !(op < to && s.get_char(op) == '(') {
        return Err(DeriveError::MalformedSchema);
    }
    let (ps, end) = match split_pieces(s, n, op + 1, ')') {
        Some(p) => p,
        None => {
            return Err(DeriveError::MalformedSchema);
        },
    };
    if !(end < to && skip_ws(s, n, end + 1) == to) {
        return Err(DeriveError::MalformedSchema);
    }
    if region_eq(s, n, st, en, "omit") {
        match idents_pieces(s, n, &ps) {
            None => Err(DeriveError::MalformedSchema),
            Some(ids) => Ok(Action::Omit(ids)),
        }
    } else if region_eq(s, n, st, en, "include") {
        match idents_pieces(s, n, &ps) {
            None => Err(DeriveError::MalformedSchema),
            Some(ids) => Ok(Action::Include(ids)),
        }
    } else if region_eq(s, n, st, en, "attr") {
        match attrs_pieces(s, n, &ps) {
            None => Err(DeriveError::MalformedSchema),
            Some(ats) => Ok(Action::Attr(ats)),
        }
    } else if region_eq(s, n, st, en, "upsert") {
        match fields_pieces(s, n, &ps) {
            None => Err(DeriveError::MalformedSchema),
            Some(fs) => Ok(Action::Upsert(fs)),
        }
    } else if region_eq(s, n, st, en, "as_tuple") {
        if ps.len() == 0 {
            proof {
                assert(pairs_view(ps@) =~= Seq::<(int, int)>::empty());
            }
            Ok(Action::AsTuple)
        } else {
            Err(DeriveError::MalformedSchema)
        }
    } else {
        Err(DeriveError::UnknownAction(s.substring_char(st, en).to_owned()))
    }
}

pub open spec fn actions_of_pieces(s: Seq<char>, ps: Seq<(int, int)>, acc: Seq<ActionV>) -> Result<
    Seq<ActionV>,
    ErrV,
>
    decreases ps.len(),
{
    if ps.len() == 0 {
        Ok(acc)
    } else {
        match parse_action_piece(s, ps[0].0, ps[0].1) {
            Err(e) => Err(e),
            Ok(a) => actions_of_pieces(s, ps.drop_first(), acc.push(a)),
        }
    }
}

pub fn actions_pieces(s: &str, n: usize, ps: &Vec<(usize, usize)>) -> (r: Result<
    Vec<Action>,
    DeriveError,
>)
    requires
        n == s@.len(),
        forall|k: int| 0 <= k < ps@.len() ==> #[trigger] ps@[k].0 <= ps@[k].1 <= n,
    ensures
        match r {
            Ok(v) => actions_of_pieces(s@, pairs_view(ps@), Seq::empty()) == Ok::<_, ErrV>(
                action_views(v@),
            ),
            Err(e) => actions_of_pieces(s@, pairs_view(ps@), Seq::empty()) == Err::<
                Seq<ActionV>,
                _,
            >(e@),
        },
{
    let mut acc: Vec<Action> = Vec::new();
    let mut k: usize = 0;
    proof {
        assert(action_views(acc@) =~= Seq::<ActionV>::empty());
        assert(pairs_view(ps@).skip(0) =~= pairs_view(ps@));
    }
    while k < ps.len()
        invariant
            n == s@.len(),
            k <= ps@.len(),
            forall|t: int| 0 <= t < ps@.len() ==> #[trigger] ps@[t].0 <= ps@[t].1 <= n,
            actions_of_pieces(s@, pairs_view(ps@), Seq::empty()) == actions_of_pieces(
                s@,
                pairs_view(ps@).skip(k as int),
                action_views(acc@),
            ),
        decreases ps@.len() - k,
    {
        let p = ps[k];
        proof {
            assert(pairs_view(ps@).skip(k as int)[0] == pairs_view(ps@)[k as int]);
            assert(pairs_view(ps@).skip(k as int).drop_first() =~= pairs_view(ps@).skip(
                k + 1 as int,
            ));
        }
        let x = match action_piece(s, n, p.0, p.1) {
            Ok(x) => x,
            Err(e) => {
                return Err(e);
            },
        };
        let ghost pre = action_views(acc@);
        let ghost xv = x@;
        acc.push(x);
        proof {
            assert(action_views(acc@) =~= pre.push(xv));
        }
        k += 1;
    }
    proof {
        assert(pairs_view(ps@).skip(ps@.len() as int) =~= Seq::<(int, int)>::empty());
    }
    Ok(acc)
}

// ---------------------------------------------------------------------------
// Variant specifications
// ---------------------------------------------------------------------------
/// One `Name => [ action, ... ]` table entry.
pub open spec fn parse_variant_piece(s: Seq<char>, from: int, to: int) -> Result<
    VariantSpecV,
    ErrV,
> {
    if !(0 <= from <= to <= s.len()) {
        Err(ErrV::Malformed)
    } else {
        let st = spec_skip_ws(s, from);
        let en = spec_ident_end(s, st);
        if st < to && is_ident_start(s[st]) && en <= to {
            let name = s.subrange(st, en);
            let ar = spec_skip_ws(s, en);
            if ar + 1 < to && s[ar] == '=' && s[ar + 1] == '>' {
                let br = spec_skip_ws(s, ar + 2);
                if br < to && s[br] == '[' {
                    match split_list(s, br + 1, ']') {
                        None => Err(ErrV::Malformed),
                        Some((ps, end)) => if end < to && spec_skip_ws(s, end + 1) == to {
                            match actions_of_pieces(s, ps, Seq::empty()) {
                                Err(e) => Err(e),
                                Ok(acts) => Ok(VariantSpecV { name, actions: acts }),
                            }
                        } else {
                            Err(ErrV::Malformed)
                        },
                    }
                } else {
                    Err(ErrV::Malformed)
                }
            } else {
                Err(ErrV::Malformed)
            }
        } else {
            Err(ErrV::Malformed)
        }
    }
}

pub fn variant_piece(s: &str, n: usize, from: usize, to: usize) -> (r: Result<
    VariantSpec,
    DeriveError,
>)
    requires
        n == s@.len(),
        from <= to <= n,
    ensures
        match r {
            Ok(v) => parse_variant_piece(s@, from as int, to as int) == Ok::<VariantSpecV, ErrV>(
                v@,
            ),
            Err(e) => parse_variant_piece(s@, from as int, to as int) == Err::<VariantSpecV, ErrV>(
                e@,
            ),
        },
{
    let st = skip_ws(s, n, from);
    if !(st < to) {
        return Err(DeriveError::MalformedSchema);
    }
    if !ident_start_char(s.get_char(st)) {
        return Err(DeriveError::MalformedSchema);
    }
    let en = ident_end(s, n, st);
    if !(en <= to) {
        return Err(DeriveError::MalformedSchema);
    }
    let ar = skip_ws(s, n, en);
    if !(ar < to && ar + 1 < to && s.get_char(ar) == '=' && s.get_char(ar + 1) == '>') {
        return Err(DeriveError::MalformedSchema);
    }
    let br = skip_ws(s, n, ar + 2);
    if !(br < to && s.get_char(br) == '[') {
        return Err(DeriveError::MalformedSchema);
    }
    let (ps, end) = match split_pieces(s, n, br + 1, ']') {
        Some(p) => p,
        None => {
            return Err(DeriveError::MalformedSchema);
        },
    };
    if !(end < to && skip_ws(s, n, end + 1) == to) {
        return Err(DeriveError::MalformedSchema);
    }
    match actions_pieces(s, n, &ps) {
        Err(e) => Err(e),
        Ok(acts) => Ok(
            VariantSpec { name: s.substring_char(st, en).to_owned(), actions: acts },
        ),
    }
}

pub open spec fn variants_of_pieces(
    s: Seq<char>,
    ps: Seq<(int, int)>,
    acc: Seq<VariantSpecV>,
) -> Result<Seq<VariantSpecV>, ErrV>
    decreases ps.len(),
{
    if ps.len() == 0 {
        Ok(acc)
    } else {
        match parse_variant_piece(s, ps[0].0, ps[0].1) {
            Err(e) => Err(e),
            Ok(v) => variants_of_pieces(s, ps.drop_first(), acc.push(v)),
        }
    }
}

pub fn variants_pieces(s: &str, n: usize, ps: &Vec<(usize, usize)>) -> (r: Result<
    Vec<VariantSpec>,
    DeriveError,
>)
    requires
        n == s@.len(),
        forall|k: int| 0 <= k < ps@.len() ==> #[trigger] ps@[k].0 <= ps@[k].1 <= n,
    ensures
        match r {
            Ok(v) => variants_of_pieces(s@, pairs_view(ps@), Seq::empty()) == Ok::<_, ErrV>(
                variant_spec_views(v@),
            ),
            Err(e) => variants_of_pieces(s@, pairs_view(ps@), Seq::empty()) == Err::<
                Seq<VariantSpecV>,
                _,
            >(e@),
        },
{
    let mut acc: Vec<VariantSpec> = Vec::new();
    let mut k: usize = 0;
    proof {
        assert(variant_spec_views(acc@) =~= Seq::<VariantSpecV>::empty());
        assert(pairs_view(ps@).skip(0) =~= pairs_view(ps@));
    }
    while k < ps.len()
        invariant
            n == s@.len(),
            k <= ps@.len(),
            forall|t: int| 0 <= t < ps@.len() ==> #[trigger] ps@[t].0 <= ps@[t].1 <= n,
            variants_of_pieces(s@, pairs_view(ps@), Seq::empty()) == variants_of_pieces(
                s@,
                pairs_view(ps@).skip(k as int),
                variant_spec_views(acc@),
            ),
        decreases ps@.len() - k,
    {
        let p = ps[k];
        proof {
            assert(pairs_view(ps@).skip(k as int)[0] == pairs_view(ps@)[k as int]);
            assert(pairs_view(ps@).skip(k as int).drop_first() =~= pairs_view(ps@).skip(
                k + 1 as int,
            ));
        }
        let x = match variant_piece(s, n, p.0, p.1) {
            Ok(x) => x,
            Err(e) => {
                return Err(e);
            },
        };
        let ghost pre = variant_spec_views(acc@);
        let ghost xv = x@;
        acc.push(x);
        proof {
            assert(variant_spec_views(acc@) =~= pre.push(xv));
        }
        k += 1;
    }
    proof {
        assert(pairs_view(ps@).skip(ps@.len() as int) =~= Seq::<(int, int)>::empty());
    }
    Ok(acc)
}

// ---------------------------------------------------------------------------
// The schema head: visibility, generics, constraints
// ---------------------------------------------------------------------------
/// An optional `pub` marker, with an optional parenthesized restriction,
/// captured verbatim.
pub open spec fn parse_vis(s: Seq<char>, i: int) -> Option<(Option<Seq<char>>, int)> {
    if !(0 <= i <= s.len()) {
        None
    } else {
        let en = spec_ident_end(s, i);
        if i < s.len() && is_ident_start(s[i]) && s.subrange(i, en) == "pub"@ {
            let op = spec_skip_ws(s, en);
            if op < s.len() && s[op] == '(' {
                match spec_scan(s, op + 1, 0, 0, 0, 0, false, ')', false) {
                    None => None,
                    Some(j) => Some((Some(s.subrange(i, j + 1)), j + 1)),
                }
            } else {
                Some((Some(s.subrange(i, en)), en))
            }
        } else {
            Some((None, i))
        }
    }
}

pub fn vis_marker(s: &str, n: usize, i: usize) -> (r: Option<(Option<String>, usize)>)
    requires
        n == s@.len(),
        i <= n,
    ensures
        match r {
            Some((v, end)) => parse_vis(s@, i as int) == Some(
                (
                    (match v {
                        Some(x) => Some(x@),
                        None => None::<Seq<char>>,
                    }),
                    end as int,
                ),
            ) && end <= n,
            None => parse_vis(s@, i as int) is None,
        },
{
    let en = ident_end(s, n, i);
    if i < n {
        if ident_start_char(s.get_char(i)) && region_eq(s, n, i, en, "pub") {
            let op = skip_ws(s, n, en);
            if op < n && s.get_char(op) == '(' {
                match scan_to(s, n, op + 1, ')', false) {
                    None => {
                        return None;
                    },
                    Some(j) => {
                        return Some((Some(s.substring_char(i, j + 1).to_owned()), j + 1));
                    },
                }
            } else {
                return Some((Some(s.substring_char(i, en).to_owned()), en));
            }
        }
    }
    Some((None, i))
}

/// An optional `<`-bracketed generic-parameter list; each parameter's
/// declaration is captured as trimmed raw text.  The returned position is
/// past the closing `>` and any following whitespace.
pub open spec fn parse_generics(s: Seq<char>, i: int) -> Option<(Seq<Seq<char>>, int)> {
    if !(0 <= i <= s.len()) {
        None
    } else if i < s.len() && s[i] == '<' {
        match split_list(s, i + 1, '>') {
            None => None,
            Some((ps, end)) => match raws_of_pieces(s, ps, Seq::empty()) {
                None => None,
                Some(gs) => Some((gs, spec_skip_ws(s, end + 1))),
            },
        }
    } else {
        Some((Seq::empty(), i))
    }
}

pub fn generic_list(s: &str, n: usize, i: usize) -> (r: Option<(Vec<String>, usize)>)
    requires
        n == s@.len(),
        i <= n,
    ensures
        match r {
            Some((gs, end)) => parse_generics(s@, i as int) == Some((str_views(gs@), end as int))
                && end <= n,
            None => parse_generics(s@, i as int) is None,
        },
{
    if i < n && s.get_char(i) == '<' {
        let (ps, end) = match split_pieces(s, n, i + 1, '>') {
            Some(x) => x,
            None => {
                return None;
            },
        };
        let gs = match raws_pieces(s, n, &ps) {
            Some(x) => x,
            None => {
                return None;
            },
        };
        Some((gs, skip_ws(s, n, end + 1)))
    } else {
        let gs: Vec<String> = Vec::new();
        proof {
            assert(str_views(gs@) =~= Seq::<Seq<char>>::empty());
        }
        Some((gs, i))
    }
}

/// An optional constraint clause introduced by `where`: comma-separated
/// predicates, each captured as trimmed raw text, running up to the `{` of
/// the field list.  The returned position is that of the `{`.
pub open spec fn parse_constraints(s: Seq<char>, i: int) -> Option<(Seq<Seq<char>>, int)> {
    if !(0 <= i <= s.len()) {
        None
    } else {
        let en = spec_ident_end(s, i);
        if i < s.len() && is_ident_start(s[i]) && s.subrange(i, en) == "where"@ {
            match split_list(s, en, '{') {
                None => None,
                Some((ps, end)) => match raws_of_pieces(s, ps, Seq::empty()) {
                    None => None,
                    Some(cs) => Some((cs, end)),
                },
            }
        } else {
            Some((Seq::empty(), i))
        }
    }
}

pub fn constraint_list(s: &str, n: usize, i: usize) -> (r: Option<(Vec<String>, usize)>)
    requires
        n == s@.len(),
        i <= n,
    ensures
        match r {
            Some((cs, end)) => parse_constraints(s@, i as int) == Some(
                (str_views(cs@), end as int),
            ) && end <= n,
            None => parse_constraints(s@, i as int) is None,
        },
{
    let en = ident_end(s, n, i);
    if i < n {
        if ident_start_char(s.get_char(i)) && region_eq(s, n, i, en, "where") {
            let (ps, end) = match split_pieces(s, n, en, '{') {
                Some(x) => x,
                None => {
                    return None;
                },
            };
            let cs = match raws_pieces(s, n, &ps) {
                Some(x) => x,
                None => {
                    return None;
                },
            };
            return Some((cs, end));
        }
    }
    let cs: Vec<String> = Vec::new();
    proof {
        assert(str_views(cs@) =~= Seq::<Seq<char>>::empty());
    }
    Some((cs, i))
}

// ---------------------------------------------------------------------------
// The whole input
// ---------------------------------------------------------------------------
/// Parse the full input: attributes, visibility, generics, constraints, the
/// braced field list, a fat arrow, and the braced variant table, with
/// nothing but whitespace after it.  Fields are deduplicated by name, first
/// occurrence kept.
pub open spec fn parse_schema_text(s: Seq<char>) -> Result<(SchemaV, Seq<VariantSpecV>), ErrV> {
    let n = s.len() as int;
    match parse_field_attrs(s, 0, n, Seq::empty()) {
        None => Err(ErrV::Malformed),
        Some((attrs, p0)) => match parse_vis(s, p0) {
            None => Err(ErrV::Malformed),
            Some((vis, p1)) => match parse_generics(s, spec_skip_ws(s, p1)) {
                None => Err(ErrV::Malformed),
                Some((gens, p2)) => match parse_constraints(s, p2) {
                    None => Err(ErrV::Malformed),
                    Some((cons, p3)) => if p3 < n && s[p3] == '{' {
                        match split_list(s, p3 + 1, '}') {
                            None => Err(ErrV::Malformed),
                            Some((fps, fend)) => match fields_of_pieces(s, fps, Seq::empty()) {
                                None => Err(ErrV::Malformed),
                                Some(fraw) => {
                                    let p4 = spec_skip_ws(s, fend + 1);
                                    if p4 + 1 < n && s[p4] == '=' && s[p4 + 1] == '>' {
                                        let p5 = spec_skip_ws(s, p4 + 2);
                                        if p5 < n && s[p5] == '{' {
                                            match split_list(s, p5 + 1, '}') {
                                                None => Err(ErrV::Malformed),
                                                Some((vps, vend)) => match variants_of_pieces(
                                                    s,
                                                    vps,
                                                    Seq::empty(),
                                                ) {
                                                    Err(e) => Err(e),
                                                    Ok(vars) => if spec_skip_ws(s, vend + 1)
                                                        == n {
                                                        Ok(
                                                            (
                                                                SchemaV {
                                                                    attrs,
                                                                    vis,
                                                                    generics: gens,
                                                                    constraints: cons,
                                                                    fields: dedup_fields(fraw),
                                                                },
                                                                vars,
                                                            ),
                                                        )
                                                    } else {
                                                        Err(ErrV::Malformed)
                                                    },
                                                },
                                            }
                                        } else {
                                            Err(ErrV::Malformed)
                                        }
                                    } else {
                                        Err(ErrV::Malformed)
                                    }
                                },
                            },
                        }
                    } else {
                        Err(ErrV::Malformed)
                    },
                },
            },
        },
    }
}

/// Parse the input text into the schema model and the ordered variant
/// specifications.  `Ok` exactly when the specification-level parse
/// succeeds; the errors are `MalformedSchema` for text outside the grammar
/// and `UnknownAction` for an action call whose name is not recognized.
pub fn parse_schema(s: &str) -> (r: Result<(Schema, Vec<VariantSpec>), DeriveError>)
    ensures
        match r {
            Ok(p) => parse_schema_text(s@) == Ok::<_, ErrV>((p.0@, variant_spec_views(p.1@))),
            Err(e) => parse_schema_text(s@) == Err::<(SchemaV, Seq<VariantSpecV>), ErrV>(e@),
        },
{
    let n = s.unicode_len();
    let (attrs, p0) = match field_attrs(s, n, 0, n) {
        Some(x) => x,
        None => {
            return Err(DeriveError::MalformedSchema);
        },
    };
    let (vis, p1) = match vis_marker(s, n, p0) {
        Some(x) => x,
        None => {
            return Err(DeriveError::MalformedSchema);
        },
    };
    let (gens, p2) = match generic_list(s, n, skip_ws(s, n, p1)) {
        Some(x) => x,
        None => {
            return Err(DeriveError::MalformedSchema);
        },
    };
    let (cons, p3) = match constraint_list(s, n, p2) {
        Some(x) => x,
        None => {
            return Err(DeriveError::MalformedSchema);
        },
    };
    if !(p3 < n && s.get_char(p3) == '{') {
        return Err(DeriveError::MalformedSchema);
    }
    let (fps, fend) = match split_pieces(s, n, p3 + 1, '}') {
        Some(x) => x,
        None => {
            return Err(DeriveError::MalformedSchema);
        },
    };
    let fraw = match fields_pieces(s, n, &fps) {
        Some(x) => x,
        None => {
            return Err(DeriveError::MalformedSchema);
        },
    };
    let p4 = skip_ws(s, n, fend + 1);
    if !(p4 < n && p4 + 1 < n && s.get_char(p4) == '=' && s.get_char(p4 + 1) == '>') {
        return Err(DeriveError::MalformedSchema);
    }
    let p5 = skip_ws(s, n, p4 + 2);
    if !(p5 < n && s.get_char(p5) == '{') {
        return Err(DeriveError::MalformedSchema);
    }
    let (vps, vend) = match split_pieces(s, n, p5 + 1, '}') {
        Some(x) => x,
        None => {
            return Err(DeriveError::MalformedSchema);
        },
    };
    let vars = match variants_pieces(s, n, &vps) {
        Ok(x) => x,
        Err(e) => {
            return Err(e);
        },
    };
    if !(skip_ws(s, n, vend + 1) == n) {
        return Err(DeriveError::MalformedSchema);
    }
    let fields = crate::model::dedup_field_list(fraw);
    Ok((Schema { attrs, vis, generics: gens, constraints: cons, fields }, vars))
}

} // verus!
