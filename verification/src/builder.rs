//! The variant builder: combine the schema, the precomputed match index and
//! a variant's resolved policy into the final model of one declaration —
//! the surviving fields in order, the activated generic parameters, and the
//! constraints those parameters activate in turn.
use crate::matching::{
    gen_matches, gen_matches_from, add_gen_matches, contains_usize, generic_matches, mentions,
    mentions_of, push_uniq_usize, str_views2, usizes_view,
};
use crate::model::{
    dedup_fields, dedup_field_list, field_views, insert_uniq, str_views, Field, FieldV, PolicyV,
    ResolvedPolicy, Schema, SchemaV, VariantOutput, VariantOutputV, VariantSpec, VariantSpecV,
};
use crate::policy::{resolve_policy, resolve_policy_of, survives, survives_field};
use vstd::prelude::*;

verus! {

pub open spec fn usizes_view2(v: Seq<Vec<usize>>) -> Seq<Seq<int>> {
    v.map_values(|x: Vec<usize>| usizes_view(x@))
}

// ---------------------------------------------------------------------------
// The match index, computed once per schema
// ---------------------------------------------------------------------------
/// Per generic parameter its mention-set; per base field and per constraint
/// predicate the generic parameters (as indices) its text activates.
pub struct MatchIndexV {
    pub generic_mentions: Seq<Seq<Seq<char>>>,
    pub field_matches: Seq<Seq<int>>,
    pub constraint_matches: Seq<Seq<int>>,
}

pub struct MatchIndex {
    pub generic_mentions: Vec<Vec<String>>,
    pub field_matches: Vec<Vec<usize>>,
    pub constraint_matches: Vec<Vec<usize>>,
}

impl View for MatchIndex {
    type V = MatchIndexV;

    open spec fn view(&self) -> MatchIndexV {
        MatchIndexV {
            generic_mentions: str_views2(self.generic_mentions@),
            field_matches: usizes_view2(self.field_matches@),
            constraint_matches: usizes_view2(self.constraint_matches@),
        }
    }
}

pub open spec fn match_index_of(sc: SchemaV) -> MatchIndexV {
    let gm = sc.generics.map_values(|g: Seq<char>| mentions(g));
    MatchIndexV {
        generic_mentions: gm,
        field_matches: sc.fields.map_values(|f: FieldV| gen_matches(mentions(f.ty), gm)),
        constraint_matches: sc.constraints.map_values(|w: Seq<char>| gen_matches(mentions(w), gm)),
    }
}

/// Compute the match index of a schema: matching is schema-global and is
/// reused unchanged by every variant.
pub fn build_match_index(sc: &Schema) -> (r: MatchIndex)
    ensures
        r@ == match_index_of(sc@),
{
    let ghost scv = sc@;
    let ghost gmv = scv.generics.map_values(|g: Seq<char>| mentions(g));
    let mut gens: Vec<Vec<String>> = Vec::new();
    let mut i: usize = 0;
    while i < sc.generics.len()
        invariant
            i <= sc.generics@.len(),
            scv == sc@,
            gmv == scv.generics.map_values(|g: Seq<char>| mentions(g)),
            gens@.len() == i,
            forall|k: int| 0 <= k < i ==> str_views2(gens@)[k] == gmv[k],
        decreases sc.generics@.len() - i,
    {
        let m = mentions_of(&sc.generics[i]);
        gens.push(m);
        i += 1;
    }
    proof {
        assert(str_views2(gens@) =~= gmv);
    }
    let mut fms: Vec<Vec<usize>> = Vec::new();
    let mut i: usize = 0;
    while i < sc.fields.len()
        invariant
            i <= sc.fields@.len(),
            scv == sc@,
            str_views2(gens@) == gmv,
            gmv == scv.generics.map_values(|g: Seq<char>| mentions(g)),
            fms@.len() == i,
            forall|k: int|
                0 <= k < i ==> usizes_view2(fms@)[k] == gen_matches(
                    mentions(scv.fields[k].ty),
                    gmv,
                ),
        decreases sc.fields@.len() - i,
    {
        let tym = mentions_of(&sc.fields[i].ty);
        let m = generic_matches(&tym, &gens);
        let ghost pre = usizes_view2(fms@);
        let ghost mv = usizes_view(m@);
        proof {
            assert(scv.fields[i as int] == sc.fields@[i as int]@);
        }
        fms.push(m);
        proof {
            assert(usizes_view2(fms@) =~= pre.push(mv));
        }
        i += 1;
    }
    proof {
        assert(usizes_view2(fms@) =~= scv.fields.map_values(
            |f: FieldV| gen_matches(mentions(f.ty), gmv),
        ));
    }
    let mut cms: Vec<Vec<usize>> = Vec::new();
    let mut i: usize = 0;
    while i < sc.constraints.len()
        invariant
            i <= sc.constraints@.len(),
            scv == sc@,
            str_views2(gens@) == gmv,
            gmv == scv.generics.map_values(|g: Seq<char>| mentions(g)),
            cms@.len() == i,
            forall|k: int|
                0 <= k < i ==> usizes_view2(cms@)[k] == gen_matches(
                    mentions(scv.constraints[k]),
                    gmv,
                ),
        decreases sc.constraints@.len() - i,
    {
        let wm = mentions_of(&sc.constraints[i]);
        let m = generic_matches(&wm, &gens);
        let ghost pre = usizes_view2(cms@);
        let ghost mv = usizes_view(m@);
        proof {
            assert(scv.constraints[i as int] == sc.constraints@[i as int]@);
        }
        cms.push(m);
        proof {
            assert(usizes_view2(cms@) =~= pre.push(mv));
        }
        i += 1;
    }
    proof {
        assert(usizes_view2(cms@) =~= scv.constraints.map_values(
            |w: Seq<char>| gen_matches(mentions(w), gmv),
        ));
    }
    MatchIndex { generic_mentions: gens, field_matches: fms, constraint_matches: cms }
}

// ---------------------------------------------------------------------------
// Collecting activated generics and constraints across the field scan
// ---------------------------------------------------------------------------
/// Constraints activated by generic `g`, folded in over the constraint list
/// in schema order.
pub open spec fn add_cons(g: int, cm: Seq<Seq<int>>, w: int, acc: Seq<int>) -> Seq<int>
    decreases cm.len() - w,
{
    if w < 0 || w >= cm.len() {
        acc
    } else {
        add_cons(
            g,
            cm,
            w + 1,
            if cm[w].contains(g) {
                insert_uniq(acc, w)
            } else {
                acc
            },
        )
    }
}

/// One surviving field's matched generics, in activation order: each joins
/// the generic set and brings in the constraints it activates.
pub open spec fn collect_field(
    fm: Seq<int>,
    cm: Seq<Seq<int>>,
    t: int,
    gens: Seq<int>,
    cons: Seq<int>,
) -> (Seq<int>, Seq<int>)
    decreases fm.len() - t,
{
    if t < 0 || t >= fm.len() {
        (gens, cons)
    } else {
        collect_field(fm, cm, t + 1, insert_uniq(gens, fm[t]), add_cons(fm[t], cm, 0, cons))
    }
}

/// The scan over all surviving fields, in output order.
pub open spec fn collect_all(
    fms: Seq<Seq<int>>,
    cm: Seq<Seq<int>>,
    i: int,
    gens: Seq<int>,
    cons: Seq<int>,
) -> (Seq<int>, Seq<int>)
    decreases fms.len() - i,
{
    if i < 0 || i >= fms.len() {
        (gens, cons)
    } else {
        let pr = collect_field(fms[i], cm, 0, gens, cons);
        collect_all(fms, cm, i + 1, pr.0, pr.1)
    }
}

// ---------------------------------------------------------------------------
// Survivors
// ---------------------------------------------------------------------------
/// The base fields that survive the policy, in schema order, paired with
/// their precomputed matched-generic lists.
pub open spec fn survivor_fields(
    fs: Seq<FieldV>,
    fms: Seq<Seq<int>>,
    p: PolicyV,
    i: int,
    accf: Seq<FieldV>,
    accm: Seq<Seq<int>>,
) -> (Seq<FieldV>, Seq<Seq<int>>)
    decreases fs.len() - i,
{
    if i < 0 || i >= fs.len() {
        (accf, accm)
    } else if survives(p, fs[i].name) {
        survivor_fields(fs, fms, p, i + 1, accf.push(fs[i]), accm.push(fms[i]))
    } else {
        survivor_fields(fs, fms, p, i + 1, accf, accm)
    }
}

/// Matched-generic lists of the upsert fields, computed from their own type
/// texts against the schema's generic mention-sets.
pub open spec fn upsert_matches(fs: Seq<FieldV>, gm: Seq<Seq<Seq<char>>>) -> Seq<Seq<int>> {
    fs.map_values(|f: FieldV| gen_matches(mentions(f.ty), gm))
}

// ---------------------------------------------------------------------------
// The build itself
// ---------------------------------------------------------------------------
/// Build one variant's output model from an already-resolved policy.  The
/// field list is the surviving base fields in schema order followed by the
/// upsert fields in action order, deduplicated by name (first seen wins);
/// the generic and constraint lists are the activation-ordered collections
/// over that field scan; tuple mode is only recorded — rendering alone
/// reads it.
pub open spec fn build_with_policy(
    sc: SchemaV,
    mi: MatchIndexV,
    name: Seq<char>,
    p: PolicyV,
) -> VariantOutputV {
    let sv = survivor_fields(sc.fields, mi.field_matches, p, 0, Seq::empty(), Seq::empty());
    let um = upsert_matches(p.upsert_fields, mi.generic_mentions);
    let all_matches = sv.1 + um;
    let gw = collect_all(all_matches, mi.constraint_matches, 0, Seq::empty(), Seq::empty());
    VariantOutputV {
        name: name,
        vis: sc.vis,
        attributes: p.attributes,
        fields: dedup_fields(sv.0 + p.upsert_fields),
        generics: gw.0.map_values(|k: int| sc.generics[k]),
        constraints: gw.1.map_values(|w: int| sc.constraints[w]),
        is_tuple: p.is_tuple,
    }
}

/// Build one variant from its specification: resolve the actions, then
/// build with the resolved policy.
pub open spec fn spec_build_variant(sc: SchemaV, mi: MatchIndexV, vs: VariantSpecV) -> VariantOutputV {
    build_with_policy(sc, mi, vs.name, resolve_policy_of(sc.attrs, vs.actions))
}

// ---------------------------------------------------------------------------
// Index bounds
// ---------------------------------------------------------------------------
pub open spec fn bounded(v: Seq<int>, b: int) -> bool {
    forall|t: int| 0 <= t < v.len() ==> 0 <= #[trigger] v[t] < b
}

pub open spec fn rows_bounded(v: Seq<Seq<int>>, b: int) -> bool {
    forall|r: int| 0 <= r < v.len() ==> bounded(#[trigger] v[r], b)
}

pub proof fn lemma_add_gen_bounds(acc: Seq<int>, ident: Seq<char>, gm: Seq<Seq<Seq<char>>>, k: int)
    requires
        0 <= k,
        bounded(acc, gm.len() as int),
    ensures
        bounded(add_gen_matches(acc, ident, gm, k), gm.len() as int),
    decreases gm.len() - k,
{
    if k < gm.len() {
        lemma_add_gen_bounds(
            if gm[k].contains(ident) {
                insert_uniq(acc, k)
            } else {
                acc
            },
            ident,
            gm,
            k + 1,
        );
    }
}

pub proof fn lemma_gen_matches_bounds(
    tym: Seq<Seq<char>>,
    gm: Seq<Seq<Seq<char>>>,
    i: int,
    acc: Seq<int>,
)
    requires
        bounded(acc, gm.len() as int),
    ensures
        bounded(gen_matches_from(tym, gm, i, acc), gm.len() as int),
    decreases tym.len() - i,
{
    if 0 <= i < tym.len() {
        lemma_add_gen_bounds(acc, tym[i], gm, 0);
        lemma_gen_matches_bounds(tym, gm, i + 1, add_gen_matches(acc, tym[i], gm, 0));
    }
}

pub proof fn lemma_add_cons_bounds(g: int, cm: Seq<Seq<int>>, w: int, acc: Seq<int>)
    requires
        0 <= w,
        bounded(acc, cm.len() as int),
    ensures
        bounded(add_cons(g, cm, w, acc), cm.len() as int),
    decreases cm.len() - w,
{
    if w < cm.len() {
        lemma_add_cons_bounds(
            g,
            cm,
            w + 1,
            if cm[w].contains(g) {
                insert_uniq(acc, w)
            } else {
                acc
            },
        );
    }
}

pub proof fn lemma_collect_field_bounds(
    fm: Seq<int>,
    cm: Seq<Seq<int>>,
    t: int,
    gens: Seq<int>,
    cons: Seq<int>,
    gb: int,
)
    requires
        0 <= t,
        bounded(fm, gb),
        bounded(gens, gb),
        bounded(cons, cm.len() as int),
    ensures
        bounded(collect_field(fm, cm, t, gens, cons).0, gb),
        bounded(collect_field(fm, cm, t, gens, cons).1, cm.len() as int),
    decreases fm.len() - t,
{
    if t < fm.len() {
        lemma_add_cons_bounds(fm[t], cm, 0, cons);
        lemma_collect_field_bounds(
            fm,
            cm,
            t + 1,
            insert_uniq(gens, fm[t]),
            add_cons(fm[t], cm, 0, cons),
            gb,
        );
    }
}

pub proof fn lemma_collect_all_bounds(
    fms: Seq<Seq<int>>,
    cm: Seq<Seq<int>>,
    i: int,
    gens: Seq<int>,
    cons: Seq<int>,
    gb: int,
)
    requires
        0 <= i,
        rows_bounded(fms, gb),
        bounded(gens, gb),
        bounded(cons, cm.len() as int),
    ensures
        bounded(collect_all(fms, cm, i, gens, cons).0, gb),
        bounded(collect_all(fms, cm, i, gens, cons).1, cm.len() as int),
    decreases fms.len() - i,
{
    if i < fms.len() {
        lemma_collect_field_bounds(fms[i], cm, 0, gens, cons, gb);
        let pr = collect_field(fms[i], cm, 0, gens, cons);
        lemma_collect_all_bounds(fms, cm, i + 1, pr.0, pr.1, gb);
    }
}

pub proof fn lemma_survivor_rows_bounded(
    fs: Seq<FieldV>,
    fms: Seq<Seq<int>>,
    p: PolicyV,
    i: int,
    accf: Seq<FieldV>,
    accm: Seq<Seq<int>>,
    gb: int,
)
    requires
        0 <= i,
        fs.len() <= fms.len(),
        rows_bounded(fms, gb),
        rows_bounded(accm, gb),
    ensures
        rows_bounded(survivor_fields(fs, fms, p, i, accf, accm).1, gb),
    decreases fs.len() - i,
{
    if i < fs.len() {
        if survives(p, fs[i].name) {
            assert(bounded(fms[i], gb));
            assert(rows_bounded(accm.push(fms[i]), gb));
            lemma_survivor_rows_bounded(fs, fms, p, i + 1, accf.push(fs[i]), accm.push(fms[i]), gb);
        } else {
            lemma_survivor_rows_bounded(fs, fms, p, i + 1, accf, accm, gb);
        }
    }
}

// ---------------------------------------------------------------------------
// Executable build
// ---------------------------------------------------------------------------
fn clone_usizes(v: &Vec<usize>) -> (r: Vec<usize>)
    ensures
        r@ == v@,
{
    let mut out: Vec<usize> = Vec::new();
    let mut i: usize = 0;
    while i < v.len()
        invariant
            i <= v@.len(),
            out@ == v@.take(i as int),
        decreases v@.len() - i,
    {
        out.push(v[i]);
        proof {
            assert(out@ =~= v@.take(i + 1 as int));
        }
        i += 1;
    }
    proof {
        assert(v@.take(v@.len() as int) =~= v@);
    }
    out
}

/// Build one variant: resolve its actions, filter the base fields, append
/// the upsert fields, and collect the activated generics and constraints in
/// first-activation order over that field scan.
pub fn build_variant(sc: &Schema, mi: &MatchIndex, vs: &VariantSpec) -> (r: VariantOutput)
    requires
        mi@ == match_index_of(sc@),
    ensures
        r@ == spec_build_variant(sc@, mi@, vs@),
{
    let ghost scv = sc@;
    let ghost miv = mi@;
    let p = resolve_policy(&sc.attrs, &vs.actions);
    let ghost pv = p@;
    let ghost sv = survivor_fields(
        scv.fields,
        miv.field_matches,
        pv,
        0,
        Seq::empty(),
        Seq::empty(),
    );
    let mut facc: Vec<Field> = Vec::new();
    let mut macc: Vec<Vec<usize>> = Vec::new();
    let mut i: usize = 0;
    proof {
        assert(field_views(facc@) =~= Seq::<FieldV>::empty());
        assert(usizes_view2(macc@) =~= Seq::<Seq<int>>::empty());
        assert(miv.field_matches.len() == scv.fields.len());
    }
    while i < sc.fields.len()
        invariant
            i <= sc.fields@.len(),
            scv == sc@,
            miv == mi@,
            pv == p@,
            miv == match_index_of(scv),
            sv == survivor_fields(
                scv.fields,
                miv.field_matches,
                pv,
                i as int,
                field_views(facc@),
                usizes_view2(macc@),
            ),
        decreases sc.fields@.len() - i,
    {
        proof {
            assert(scv.fields[i as int] == sc.fields@[i as int]@);
            assert(miv.field_matches.len() == scv.fields.len());
            assert(miv.field_matches[i as int] == usizes_view(mi.field_matches@[i as int]@));
        }
        if survives_field(&p, &sc.fields[i].name) {
            let ghost pf = field_views(facc@);
            let ghost pm = usizes_view2(macc@);
            let fc = sc.fields[i].clone();
            let mc = clone_usizes(&mi.field_matches[i]);
            facc.push(fc);
            macc.push(mc);
            proof {
                assert(field_views(facc@) =~= pf.push(scv.fields[i as int]));
                assert(usizes_view2(macc@) =~= pm.push(miv.field_matches[i as int]));
            }
        }
        i += 1;
    }
    let ghost um = upsert_matches(pv.upsert_fields, miv.generic_mentions);
    let mut k: usize = 0;
    proof {
        assert(field_views(facc@) == sv.0);
        assert(usizes_view2(macc@) == sv.1);
        assert(sv.0 + pv.upsert_fields.take(0) =~= sv.0);
        assert(sv.1 + um.take(0) =~= sv.1);
    }
    while k < p.upsert_fields.len()
        invariant
            k <= p.upsert_fields@.len(),
            scv == sc@,
            miv == mi@,
            pv == p@,
            miv == match_index_of(scv),
            um == upsert_matches(pv.upsert_fields, miv.generic_mentions),
            field_views(facc@) == sv.0 + pv.upsert_fields.take(k as int),
            usizes_view2(macc@) == sv.1 + um.take(k as int),
        decreases p.upsert_fields@.len() - k,
    {
        proof {
            assert(pv.upsert_fields[k as int] == p.upsert_fields@[k as int]@);
        }
        let tym = mentions_of(&p.upsert_fields[k].ty);
        let m = generic_matches(&tym, &mi.generic_mentions);
        let ghost pf = field_views(facc@);
        let ghost pm = usizes_view2(macc@);
        let ghost mv = usizes_view(m@);
        let fc = p.upsert_fields[k].clone();
        facc.push(fc);
        macc.push(m);
        proof {
            assert(mv == um[k as int]);
            assert(field_views(facc@) =~= pf.push(pv.upsert_fields[k as int]));
            assert(sv.0 + pv.upsert_fields.take(k + 1 as int) =~= pf.push(
                pv.upsert_fields[k as int],
            ));
            assert(usizes_view2(macc@) =~= pm.push(mv));
            assert(sv.1 + um.take(k + 1 as int) =~= pm.push(mv));
        }
        k += 1;
    }
    proof {
        assert(pv.upsert_fields.take(pv.upsert_fields.len() as int) =~= pv.upsert_fields);
        assert(um.take(um.len() as int) =~= um);
    }
    let ghost am = sv.1 + um;
    let ghost gw = collect_all(am, miv.constraint_matches, 0, Seq::empty(), Seq::empty());
    let mut gseen: Vec<usize> = Vec::new();
    let mut wseen: Vec<usize> = Vec::new();
    let mut i2: usize = 0;
    proof {
        assert(usizes_view(gseen@) =~= Seq::<int>::empty());
        assert(usizes_view(wseen@) =~= Seq::<int>::empty());
        assert(am == usizes_view2(macc@));
    }
    while i2 < macc.len()
        invariant
            i2 <= macc@.len(),
            miv == mi@,
            am == usizes_view2(macc@),
            gw == collect_all(
                am,
                miv.constraint_matches,
                i2 as int,
                usizes_view(gseen@),
                usizes_view(wseen@),
            ),
        decreases macc@.len() - i2,
    {
        let fm = &macc[i2];
        let ghost fmv = usizes_view(fm@);
        proof {
            assert(fmv == am[i2 as int]);
        }
        let mut t: usize = 0;
        while t < fm.len()
            invariant
                t <= fm@.len(),
                i2 < macc@.len(),
                miv == mi@,
                am == usizes_view2(macc@),
                fmv == usizes_view(fm@),
                fmv == am[i2 as int],
                gw == ({
                    let pr = collect_field(
                        fmv,
                        miv.constraint_matches,
                        t as int,
                        usizes_view(gseen@),
                        usizes_view(wseen@),
                    );
                    collect_all(am, miv.constraint_matches, i2 + 1 as int, pr.0, pr.1)
                }),
            decreases fm@.len() - t,
        {
            let g = fm[t];
            let ghost g0 = usizes_view(gseen@);
            let ghost c0 = usizes_view(wseen@);
            proof {
                assert(fmv[t as int] == g as int);
            }
            push_uniq_usize(&mut gseen, g);
            let mut w: usize = 0;
            proof {
                assert(miv.constraint_matches.len() == mi.constraint_matches@.len());
            }
            while w < mi.constraint_matches.len()
                invariant
                    w <= mi.constraint_matches@.len(),
                    miv == mi@,
                    add_cons(g as int, miv.constraint_matches, 0, c0) == add_cons(
                        g as int,
                        miv.constraint_matches,
                        w as int,
                        usizes_view(wseen@),
                    ),
                decreases mi.constraint_matches@.len() - w,
            {
                proof {
                    assert(miv.constraint_matches[w as int] == usizes_view(
                        mi.constraint_matches@[w as int]@,
                    ));
                }
                if contains_usize(&mi.constraint_matches[w], g) {
                    push_uniq_usize(&mut wseen, w);
                }
                w += 1;
            }
            t += 1;
        }
        i2 += 1;
    }
    proof {
        assert(usizes_view(gseen@) == gw.0);
        assert(usizes_view(wseen@) == gw.1);
        // every collected index lies inside the schema's generic and
        // constraint lists
        let gb = scv.generics.len() as int;
        assert(miv.generic_mentions.len() == gb);
        assert forall|r: int| 0 <= r < miv.field_matches.len() implies bounded(
            #[trigger] miv.field_matches[r],
            gb,
        ) by {
            lemma_gen_matches_bounds(
                mentions(scv.fields[r].ty),
                miv.generic_mentions,
                0,
                Seq::empty(),
            );
        }
        assert forall|r: int| 0 <= r < um.len() implies bounded(#[trigger] um[r], gb) by {
            lemma_gen_matches_bounds(
                mentions(pv.upsert_fields[r].ty),
                miv.generic_mentions,
                0,
                Seq::empty(),
            );
        }
        lemma_survivor_rows_bounded(
            scv.fields,
            miv.field_matches,
            pv,
            0,
            Seq::empty(),
            Seq::empty(),
            gb,
        );
        assert(rows_bounded(am, gb));
        lemma_collect_all_bounds(am, miv.constraint_matches, 0, Seq::empty(), Seq::empty(), gb);
        assert(bounded(gw.0, gb));
        assert(bounded(gw.1, miv.constraint_matches.len() as int));
        assert(miv.constraint_matches.len() == scv.constraints.len());
    }
    let mut out_gens: Vec<String> = Vec::new();
    let mut t2: usize = 0;
    while t2 < gseen.len()
        invariant
            t2 <= gseen@.len(),
            scv == sc@,
            usizes_view(gseen@) == gw.0,
            bounded(gw.0, scv.generics.len() as int),
            out_gens@.len() == t2,
            forall|q: int| 0 <= q < t2 ==> str_views(out_gens@)[q] == scv.generics[gw.0[q]],
        decreases gseen@.len() - t2,
    {
        let gi = gseen[t2];
        proof {
            assert(gw.0[t2 as int] == gi as int);
            assert(0 <= gw.0[t2 as int] < scv.generics.len());
        }
        let ghost preg = str_views(out_gens@);
        out_gens.push(sc.generics[gi].clone());
        proof {
            assert(scv.generics[gi as int] == sc.generics@[gi as int]@);
            assert(str_views(out_gens@) =~= preg.push(sc.generics@[gi as int]@));
        }
        t2 += 1;
    }
    proof {
        assert(str_views(out_gens@) =~= gw.0.map_values(|q: int| scv.generics[q]));
    }
    let mut out_cons: Vec<String> = Vec::new();
    let mut t3: usize = 0;
    while t3 < wseen.len()
        invariant
            t3 <= wseen@.len(),
            scv == sc@,
            usizes_view(wseen@) == gw.1,
            bounded(gw.1, scv.constraints.len() as int),
            out_cons@.len() == t3,
            forall|q: int| 0 <= q < t3 ==> str_views(out_cons@)[q] == scv.constraints[gw.1[q]],
        decreases wseen@.len() - t3,
    {
        let wi = wseen[t3];
        proof {
            assert(gw.1[t3 as int] == wi as int);
            assert(0 <= gw.1[t3 as int] < scv.constraints.len());
        }
        let ghost prec = str_views(out_cons@);
        out_cons.push(sc.constraints[wi].clone());
        proof {
            assert(scv.constraints[wi as int] == sc.constraints@[wi as int]@);
            assert(str_views(out_cons@) =~= prec.push(sc.constraints@[wi as int]@));
        }
        t3 += 1;
    }
    proof {
        assert(str_views(out_cons@) =~= gw.1.map_values(|q: int| scv.constraints[q]));
    }
    let fields = dedup_field_list(facc);
    let name = vs.name.clone();
    let vis = match &sc.vis {
        Some(v) => Some(v.clone()),
        None => None,
    };
    let is_tuple = p.is_tuple;
    let r = VariantOutput {
        name,
        vis,
        attributes: p.attributes,
        fields,
        generics: out_gens,
        constraints: out_cons,
        is_tuple,
    };
    proof {
        assert(r@.fields == dedup_fields(sv.0 + pv.upsert_fields));
        assert(r@.vis == scv.vis);
        assert(r@ == spec_build_variant(scv, miv, vs@));
    }
    r
}

} // verus!
