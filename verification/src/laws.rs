//! Laws of the derivation, stated and proved over the specification-level
//! model that every executable function is proved equal to.
use crate::builder::{
    add_cons, build_with_policy, collect_all, collect_field, match_index_of, spec_build_variant,
    survivor_fields, upsert_matches, MatchIndexV,
};
use crate::matching::{add_gen_matches, gen_matches, gen_matches_from, lists_intersect, mentions};
use crate::model::{
    dedup_fields, dedup_fields_from, has_field_named, insert_uniq, union_uniq, ActionV, FieldV,
    PolicyV, SchemaV, VariantSpecV,
};
use crate::parse::{
    fields_of_pieces, parse_constraints, parse_field_attrs, parse_generics, parse_schema_text,
    parse_vis, split_list,
};
use crate::policy::{
    apply_action, fold_actions, initial_policy, names_of, resolve_policy_of, survives,
};
use crate::scan::spec_skip_ws;
use vstd::prelude::*;

verus! {

// ---------------------------------------------------------------------------
// Membership in insertion-ordered sets
// ---------------------------------------------------------------------------
pub proof fn lemma_insert_uniq_contains<A>(s: Seq<A>, x: A, y: A)
    ensures
        insert_uniq(s, x).contains(y) <==> (s.contains(y) || y == x),
{
    if !s.contains(x) {
        let r = s.push(x);
        if s.contains(y) {
            let i = choose|i: int| 0 <= i < s.len() && s[i] == y;
            assert(r[i] == y);
            assert(r.contains(y));
        }
        if y == x {
            assert(r[s.len() as int] == y);
            assert(r.contains(y));
        }
        if r.contains(y) {
            let i = choose|i: int| 0 <= i < r.len() && r[i] == y;
            if i < s.len() {
                assert(s[i] == y);
                assert(s.contains(y));
            }
        }
    }
}

proof fn lemma_head_contains<A>(xs: Seq<A>, y: A)
    requires
        xs.len() > 0,
    ensures
        xs.contains(y) <==> (xs[0] == y || xs.drop_first().contains(y)),
{
    if xs.contains(y) {
        let i = choose|i: int| 0 <= i < xs.len() && xs[i] == y;
        if i > 0 {
            assert(xs.drop_first()[i - 1] == y);
            assert(xs.drop_first().contains(y));
        }
    }
    if xs.drop_first().contains(y) {
        let i = choose|i: int| 0 <= i < xs.drop_first().len() && xs.drop_first()[i] == y;
        assert(xs[i + 1] == y);
        assert(xs.contains(y));
    }
    if xs[0] == y {
        assert(xs.contains(y));
    }
}

pub proof fn lemma_union_uniq_contains<A>(s: Seq<A>, xs: Seq<A>, y: A)
    ensures
        union_uniq(s, xs).contains(y) <==> (s.contains(y) || xs.contains(y)),
    decreases xs.len(),
{
    if xs.len() == 0 {
        if xs.contains(y) {
            let i = choose|i: int| 0 <= i < xs.len() && xs[i] == y;
            assert(false);
        }
    } else {
        lemma_insert_uniq_contains(s, xs[0], y);
        lemma_union_uniq_contains(insert_uniq(s, xs[0]), xs.drop_first(), y);
        lemma_head_contains(xs, y);
    }
}

// ---------------------------------------------------------------------------
// The surviving base fields, declaratively
// ---------------------------------------------------------------------------
/// The base fields surviving policy `p`, from position `i` on, in schema
/// order.
pub open spec fn surviving_from(fs: Seq<FieldV>, p: PolicyV, i: int) -> Seq<FieldV>
    decreases fs.len() - i,
{
    if i < 0 || i >= fs.len() {
        Seq::empty()
    } else if survives(p, fs[i].name) {
        seq![fs[i]] + surviving_from(fs, p, i + 1)
    } else {
        surviving_from(fs, p, i + 1)
    }
}

/// The builder's survivor fold computes exactly the declarative filter.
pub proof fn lemma_survivors_front(
    fs: Seq<FieldV>,
    fms: Seq<Seq<int>>,
    p: PolicyV,
    i: int,
    accf: Seq<FieldV>,
    accm: Seq<Seq<int>>,
)
    requires
        0 <= i,
    ensures
        survivor_fields(fs, fms, p, i, accf, accm).0 == accf + surviving_from(fs, p, i),
    decreases fs.len() - i,
{
    if i >= fs.len() {
        assert(accf + surviving_from(fs, p, i) =~= accf);
    } else if survives(p, fs[i].name) {
        lemma_survivors_front(fs, fms, p, i + 1, accf.push(fs[i]), accm.push(fms[i]));
        assert(accf.push(fs[i]) + surviving_from(fs, p, i + 1) =~= accf + (seq![fs[i]]
            + surviving_from(fs, p, i + 1)));
    } else {
        lemma_survivors_front(fs, fms, p, i + 1, accf, accm);
    }
}

/// Every surviving field survives, and stands somewhere in the schema from
/// position `i` on.
pub proof fn lemma_surviving_members(fs: Seq<FieldV>, p: PolicyV, i: int)
    requires
        0 <= i,
    ensures
        forall|t: int|
            0 <= t < surviving_from(fs, p, i).len() ==> survives(
                p,
                #[trigger] surviving_from(fs, p, i)[t].name,
            ) && exists|j: int| i <= j < fs.len() && surviving_from(fs, p, i)[t] == fs[j],
    decreases fs.len() - i,
{
    if i < fs.len() {
        lemma_surviving_members(fs, p, i + 1);
        if survives(p, fs[i].name) {
            assert forall|t: int| 0 <= t < surviving_from(fs, p, i).len() implies survives(
                p,
                #[trigger] surviving_from(fs, p, i)[t].name,
            ) && exists|j: int| i <= j < fs.len() && surviving_from(fs, p, i)[t] == fs[j] by {
                if t == 0 {
                    assert(surviving_from(fs, p, i)[0] == fs[i]);
                    assert(i <= i < fs.len() && surviving_from(fs, p, i)[0] == fs[i]);
                } else {
                    assert(surviving_from(fs, p, i)[t] == surviving_from(fs, p, i + 1)[t - 1]);
                    assert(survives(p, surviving_from(fs, p, i + 1)[t - 1].name));
                    let j = choose|j: int|
                        i + 1 <= j < fs.len() && surviving_from(fs, p, i + 1)[t - 1] == fs[j];
                    assert(i <= j < fs.len() && surviving_from(fs, p, i)[t] == fs[j]);
                }
            }
        } else {
            assert(surviving_from(fs, p, i) == surviving_from(fs, p, i + 1));
            assert forall|t: int| 0 <= t < surviving_from(fs, p, i).len() implies survives(
                p,
                #[trigger] surviving_from(fs, p, i)[t].name,
            ) && exists|j: int| i <= j < fs.len() && surviving_from(fs, p, i)[t] == fs[j] by {
                assert(survives(p, surviving_from(fs, p, i + 1)[t].name));
                let j = choose|j: int|
                    i + 1 <= j < fs.len() && surviving_from(fs, p, i + 1)[t] == fs[j];
                assert(i <= j < fs.len() && surviving_from(fs, p, i)[t] == fs[j]);
            }
        }
    }
}

// ---------------------------------------------------------------------------
// Distinct names and deduplication
// ---------------------------------------------------------------------------
/// All field names distinct.
pub open spec fn names_distinct(fs: Seq<FieldV>) -> bool {
    forall|i: int, j: int| 0 <= i < j < fs.len() ==> fs[i].name != fs[j].name
}

/// Filtering a name-distinct field list keeps its names distinct.
pub proof fn lemma_surviving_distinct(fs: Seq<FieldV>, p: PolicyV, i: int)
    requires
        names_distinct(fs),
        0 <= i,
    ensures
        names_distinct(surviving_from(fs, p, i)),
    decreases fs.len() - i,
{
    if i < fs.len() {
        lemma_surviving_distinct(fs, p, i + 1);
        lemma_surviving_members(fs, p, i + 1);
        if survives(p, fs[i].name) {
            let s = surviving_from(fs, p, i);
            let rest = surviving_from(fs, p, i + 1);
            assert forall|a: int, b: int| 0 <= a < b < s.len() implies s[a].name != s[b].name by {
                if a == 0 {
                    assert(s[b] == rest[b - 1]);
                    assert(survives(p, rest[b - 1].name));
                    let j = choose|j: int| i + 1 <= j < fs.len() && rest[b - 1] == fs[j];
                    assert(fs[i].name != fs[j].name);
                } else {
                    assert(s[a] == rest[a - 1]);
                    assert(s[b] == rest[b - 1]);
                }
            }
        }
    }
}

/// On a list of distinct names, deduplication changes nothing.
pub proof fn lemma_dedup_distinct(fs: Seq<FieldV>, i: int, acc: Seq<FieldV>)
    requires
        names_distinct(fs),
        0 <= i <= fs.len(),
        acc == fs.take(i),
    ensures
        dedup_fields_from(fs, i, acc) == fs,
    decreases fs.len() - i,
{
    if i == fs.len() {
        assert(fs.take(i) =~= fs);
    } else {
        if has_field_named(acc, fs[i].name) {
            let k = choose|k: int| 0 <= k < acc.len() && acc[k].name == fs[i].name;
            assert(acc[k] == fs[k]);
            assert(false);
        }
        assert(acc.push(fs[i]) =~= fs.take(i + 1));
        lemma_dedup_distinct(fs, i + 1, acc.push(fs[i]));
    }
}

/// Every field of the deduplicated list stands in the accumulator or in the
/// input.
pub proof fn lemma_dedup_members(fs: Seq<FieldV>, i: int, acc: Seq<FieldV>)
    requires
        0 <= i,
    ensures
        forall|t: int|
            0 <= t < dedup_fields_from(fs, i, acc).len() ==> acc.contains(
                #[trigger] dedup_fields_from(fs, i, acc)[t],
            ) || fs.contains(dedup_fields_from(fs, i, acc)[t]),
    decreases fs.len() - i,
{
    if i < fs.len() {
        if has_field_named(acc, fs[i].name) {
            lemma_dedup_members(fs, i + 1, acc);
            assert(dedup_fields_from(fs, i, acc) == dedup_fields_from(fs, i + 1, acc));
            assert forall|t: int| 0 <= t < dedup_fields_from(fs, i, acc).len() implies acc.contains(
                #[trigger] dedup_fields_from(fs, i, acc)[t],
            ) || fs.contains(dedup_fields_from(fs, i, acc)[t]) by {
                assert(acc.contains(dedup_fields_from(fs, i + 1, acc)[t]) || fs.contains(
                    dedup_fields_from(fs, i + 1, acc)[t],
                ));
            }
        } else {
            lemma_dedup_members(fs, i + 1, acc.push(fs[i]));
            assert(dedup_fields_from(fs, i, acc) == dedup_fields_from(fs, i + 1, acc.push(fs[i])));
            assert forall|t: int| 0 <= t < dedup_fields_from(fs, i, acc).len() implies acc.contains(
                #[trigger] dedup_fields_from(fs, i, acc)[t],
            ) || fs.contains(dedup_fields_from(fs, i, acc)[t]) by {
                let e = dedup_fields_from(fs, i, acc)[t];
                assert(acc.push(fs[i]).contains(dedup_fields_from(fs, i + 1, acc.push(fs[i]))[t])
                    || fs.contains(dedup_fields_from(fs, i + 1, acc.push(fs[i]))[t]));
                if acc.push(fs[i]).contains(e) {
                    let k = choose|k: int|
                        0 <= k < acc.push(fs[i]).len() && acc.push(fs[i])[k] == e;
                    if k < acc.len() {
                        assert(acc[k] == e);
                        assert(acc.contains(e));
                    } else {
                        assert(e == fs[i]);
                        assert(0 <= i < fs.len() && fs[i] == e);
                        assert(fs.contains(e));
                    }
                }
            }
        }
    }
}

// ---------------------------------------------------------------------------
// Every upsert field's name stands in the upsert-name set
// ---------------------------------------------------------------------------
pub proof fn lemma_upsert_names_cover(p0: PolicyV, acts: Seq<ActionV>)
    requires
        forall|t: int|
            0 <= t < p0.upsert_fields.len() ==> p0.upsert_names.contains(
                #[trigger] p0.upsert_fields[t].name,
            ),
    ensures
        forall|t: int|
            0 <= t < fold_actions(p0, acts).upsert_fields.len() ==> fold_actions(
                p0,
                acts,
            ).upsert_names.contains(#[trigger] fold_actions(p0, acts).upsert_fields[t].name),
    decreases acts.len(),
{
    if acts.len() > 0 {
        let p1 = apply_action(p0, acts[0]);
        assert forall|t: int| 0 <= t < p1.upsert_fields.len() implies p1.upsert_names.contains(
            #[trigger] p1.upsert_fields[t].name,
        ) by {
            match acts[0] {
                ActionV::Upsert(fs) => {
                    lemma_union_uniq_contains(
                        p0.upsert_names,
                        names_of(fs),
                        p1.upsert_fields[t].name,
                    );
                    if t < p0.upsert_fields.len() {
                        assert(p1.upsert_fields[t] == p0.upsert_fields[t]);
                    } else {
                        assert(p1.upsert_fields[t] == fs[t - p0.upsert_fields.len()]);
                        assert(names_of(fs)[t - p0.upsert_fields.len()]
                            == p1.upsert_fields[t].name);
                        assert(names_of(fs).contains(p1.upsert_fields[t].name));
                    }
                },
                _ => {},
            }
        }
        lemma_upsert_names_cover(p1, acts.drop_first());
        assert(fold_actions(p0, acts) == fold_actions(p1, acts.drop_first()));
        assert forall|t: int| 0 <= t < fold_actions(p0, acts).upsert_fields.len() implies
            fold_actions(p0, acts).upsert_names.contains(
            #[trigger] fold_actions(p0, acts).upsert_fields[t].name,
        ) by {
            assert(fold_actions(p1, acts.drop_first()).upsert_names.contains(
                fold_actions(p1, acts.drop_first()).upsert_fields[t].name,
            ));
        }
    }
}

// ---------------------------------------------------------------------------
// Order preservation
// ---------------------------------------------------------------------------
/// Order preservation: when the upsert fields carry distinct names, the
/// emitted field list is exactly the surviving base fields in schema order
/// followed by the upsert fields in action order.  (The schema's own field
/// list is name-distinct by construction; parsing deduplicates it.)
pub proof fn lemma_order_preservation(sc: SchemaV, mi: MatchIndexV, vs: VariantSpecV)
    requires
        names_distinct(sc.fields),
        names_distinct(resolve_policy_of(sc.attrs, vs.actions).upsert_fields),
    ensures
        spec_build_variant(sc, mi, vs).fields == surviving_from(
            sc.fields,
            resolve_policy_of(sc.attrs, vs.actions),
            0,
        ) + resolve_policy_of(sc.attrs, vs.actions).upsert_fields,
{
    let p = resolve_policy_of(sc.attrs, vs.actions);
    let sv = survivor_fields(sc.fields, mi.field_matches, p, 0, Seq::empty(), Seq::empty());
    lemma_survivors_front(sc.fields, mi.field_matches, p, 0, Seq::empty(), Seq::empty());
    let s0 = surviving_from(sc.fields, p, 0);
    assert(sv.0 =~= s0);
    let all = s0 + p.upsert_fields;
    lemma_surviving_members(sc.fields, p, 0);
    assert(forall|t: int|
        0 <= t < initial_policy(sc.attrs).upsert_fields.len() ==> initial_policy(
            sc.attrs,
        ).upsert_names.contains(#[trigger] initial_policy(sc.attrs).upsert_fields[t].name));
    lemma_upsert_names_cover(initial_policy(sc.attrs), vs.actions);
    lemma_surviving_distinct(sc.fields, p, 0);
    assert(names_distinct(all)) by {
        assert forall|i: int, j: int| 0 <= i < j < all.len() implies all[i].name != all[j].name by {
            if j < s0.len() {
                assert(s0[i].name != s0[j].name);
            } else if i >= s0.len() {
                assert(p.upsert_fields[i - s0.len()].name != p.upsert_fields[j - s0.len()].name);
            } else {
                // a surviving base field never carries an upsert name
                assert(survives(p, s0[i].name));
                assert(p.upsert_names.contains(all[j].name));
                if s0[i].name == all[j].name {
                    assert(false);
                }
            }
        }
    };
    assert(Seq::<FieldV>::empty() =~= all.take(0));
    lemma_dedup_distinct(all, 0, all.take(0));
    assert(spec_build_variant(sc, mi, vs).fields == dedup_fields(sv.0 + p.upsert_fields));
    assert(sv.0 + p.upsert_fields =~= all);
}

// ---------------------------------------------------------------------------
// Upsert precedence
// ---------------------------------------------------------------------------
/// Upsert precedence: an emitted field whose name was upserted is one of
/// the upsert fields themselves — its type is the upserted type, never the
/// base field's.
pub proof fn lemma_upsert_precedence(sc: SchemaV, mi: MatchIndexV, vs: VariantSpecV, t: int)
    requires
        0 <= t < spec_build_variant(sc, mi, vs).fields.len(),
        resolve_policy_of(sc.attrs, vs.actions).upsert_names.contains(
            spec_build_variant(sc, mi, vs).fields[t].name,
        ),
    ensures
        resolve_policy_of(sc.attrs, vs.actions).upsert_fields.contains(
            spec_build_variant(sc, mi, vs).fields[t],
        ),
{
    let p = resolve_policy_of(sc.attrs, vs.actions);
    let sv = survivor_fields(sc.fields, mi.field_matches, p, 0, Seq::empty(), Seq::empty());
    let all = sv.0 + p.upsert_fields;
    let e = spec_build_variant(sc, mi, vs).fields[t];
    lemma_dedup_members(all, 0, Seq::empty());
    assert(all.contains(e) || Seq::<FieldV>::empty().contains(e));
    if Seq::<FieldV>::empty().contains(e) {
        let q = choose|q: int|
            0 <= q < Seq::<FieldV>::empty().len() && Seq::<FieldV>::empty()[q] == e;
        assert(false);
    }
    let k = choose|k: int| 0 <= k < all.len() && all[k] == e;
    if k < sv.0.len() {
        lemma_survivors_front(sc.fields, mi.field_matches, p, 0, Seq::empty(), Seq::empty());
        let s0 = surviving_from(sc.fields, p, 0);
        assert(sv.0 =~= s0);
        lemma_surviving_members(sc.fields, p, 0);
        assert(survives(p, s0[k].name));
        assert(false);
    } else {
        assert(p.upsert_fields[k - sv.0.len()] == e);
        assert(p.upsert_fields.contains(e));
    }
}

// ---------------------------------------------------------------------------
// Tuple/struct duality
// ---------------------------------------------------------------------------
proof fn lemma_survivors_policy_blind(
    fs: Seq<FieldV>,
    fms: Seq<Seq<int>>,
    p1: PolicyV,
    p2: PolicyV,
    i: int,
    accf: Seq<FieldV>,
    accm: Seq<Seq<int>>,
)
    requires
        0 <= i,
        p1.omitted == p2.omitted,
        p1.included == p2.included,
        p1.upsert_names == p2.upsert_names,
    ensures
        survivor_fields(fs, fms, p1, i, accf, accm) == survivor_fields(fs, fms, p2, i, accf, accm),
    decreases fs.len() - i,
{
    if i < fs.len() {
        assert(survives(p1, fs[i].name) == survives(p2, fs[i].name));
        if survives(p1, fs[i].name) {
            lemma_survivors_policy_blind(fs, fms, p1, p2, i + 1, accf.push(fs[i]), accm.push(fms[i]));
        } else {
            lemma_survivors_policy_blind(fs, fms, p1, p2, i + 1, accf, accm);
        }
    }
}

/// Tuple/struct duality: two policies that agree on everything but tuple
/// mode build the same name, visibility, attributes, fields, generics and
/// constraints — toggling `as_tuple` changes the recorded representation
/// alone, and only rendering reads it.
pub proof fn lemma_tuple_struct_duality(
    sc: SchemaV,
    mi: MatchIndexV,
    name: Seq<char>,
    p1: PolicyV,
    p2: PolicyV,
)
    requires
        p1.omitted == p2.omitted,
        p1.included == p2.included,
        p1.upsert_names == p2.upsert_names,
        p1.upsert_fields == p2.upsert_fields,
        p1.attributes == p2.attributes,
    ensures
        build_with_policy(sc, mi, name, p1).name == build_with_policy(sc, mi, name, p2).name,
        build_with_policy(sc, mi, name, p1).vis == build_with_policy(sc, mi, name, p2).vis,
        build_with_policy(sc, mi, name, p1).attributes == build_with_policy(
            sc,
            mi,
            name,
            p2,
        ).attributes,
        build_with_policy(sc, mi, name, p1).fields == build_with_policy(sc, mi, name, p2).fields,
        build_with_policy(sc, mi, name, p1).generics == build_with_policy(
            sc,
            mi,
            name,
            p2,
        ).generics,
        build_with_policy(sc, mi, name, p1).constraints == build_with_policy(
            sc,
            mi,
            name,
            p2,
        ).constraints,
        build_with_policy(sc, mi, name, p1).is_tuple == p1.is_tuple,
        build_with_policy(sc, mi, name, p2).is_tuple == p2.is_tuple,
{
    lemma_survivors_policy_blind(
        sc.fields,
        mi.field_matches,
        p1,
        p2,
        0,
        Seq::empty(),
        Seq::empty(),
    );
}

// ---------------------------------------------------------------------------
// Pruning soundness
// ---------------------------------------------------------------------------
proof fn lemma_add_gen_members(acc: Seq<int>, ident: Seq<char>, gm: Seq<Seq<Seq<char>>>, k: int)
    requires
        0 <= k,
    ensures
        forall|t: int|
            0 <= t < add_gen_matches(acc, ident, gm, k).len() ==> acc.contains(
                #[trigger] add_gen_matches(acc, ident, gm, k)[t],
            ) || (0 <= add_gen_matches(acc, ident, gm, k)[t] < gm.len() && gm[add_gen_matches(
                acc,
                ident,
                gm,
                k,
            )[t]].contains(ident)),
    decreases gm.len() - k,
{
    if k < gm.len() {
        let acc2 = if gm[k].contains(ident) {
            insert_uniq(acc, k)
        } else {
            acc
        };
        lemma_add_gen_members(acc2, ident, gm, k + 1);
        assert(add_gen_matches(acc, ident, gm, k) == add_gen_matches(acc2, ident, gm, k + 1));
        assert forall|t: int| 0 <= t < add_gen_matches(acc, ident, gm, k).len() implies acc.contains(
            #[trigger] add_gen_matches(acc, ident, gm, k)[t],
        ) || (0 <= add_gen_matches(acc, ident, gm, k)[t] < gm.len() && gm[add_gen_matches(
            acc,
            ident,
            gm,
            k,
        )[t]].contains(ident)) by {
            let e = add_gen_matches(acc, ident, gm, k)[t];
            assert(acc2.contains(add_gen_matches(acc2, ident, gm, k + 1)[t]) || (0
                <= add_gen_matches(acc2, ident, gm, k + 1)[t] < gm.len() && gm[add_gen_matches(
                acc2,
                ident,
                gm,
                k + 1,
            )[t]].contains(ident)));
            if acc2.contains(e) {
                lemma_insert_uniq_contains(acc, k, e);
            }
        }
    }
}

proof fn lemma_gen_matches_members(
    tym: Seq<Seq<char>>,
    gm: Seq<Seq<Seq<char>>>,
    i: int,
    acc: Seq<int>,
)
    requires
        0 <= i,
    ensures
        forall|t: int|
            0 <= t < gen_matches_from(tym, gm, i, acc).len() ==> acc.contains(
                #[trigger] gen_matches_from(tym, gm, i, acc)[t],
            ) || (0 <= gen_matches_from(tym, gm, i, acc)[t] < gm.len() && lists_intersect(
                tym,
                gm[gen_matches_from(tym, gm, i, acc)[t]],
            )),
    decreases tym.len() - i,
{
    if i < tym.len() {
        let acc2 = add_gen_matches(acc, tym[i], gm, 0);
        lemma_add_gen_members(acc, tym[i], gm, 0);
        lemma_gen_matches_members(tym, gm, i + 1, acc2);
        assert(gen_matches_from(tym, gm, i, acc) == gen_matches_from(tym, gm, i + 1, acc2));
        assert forall|t: int| 0 <= t < gen_matches_from(tym, gm, i, acc).len() implies acc.contains(
            #[trigger] gen_matches_from(tym, gm, i, acc)[t],
        ) || (0 <= gen_matches_from(tym, gm, i, acc)[t] < gm.len() && lists_intersect(
            tym,
            gm[gen_matches_from(tym, gm, i, acc)[t]],
        )) by {
            let e = gen_matches_from(tym, gm, i, acc)[t];
            assert(acc2.contains(gen_matches_from(tym, gm, i + 1, acc2)[t]) || (0
                <= gen_matches_from(tym, gm, i + 1, acc2)[t] < gm.len() && lists_intersect(
                tym,
                gm[gen_matches_from(tym, gm, i + 1, acc2)[t]],
            )));
            if acc2.contains(e) && !acc.contains(e) {
                let k2 = choose|k2: int| 0 <= k2 < acc2.len() && acc2[k2] == e;
                assert(acc2[k2] == add_gen_matches(acc, tym[i], gm, 0)[k2]);
                assert(acc.contains(e) || (0 <= e < gm.len() && gm[e].contains(tym[i])));
                assert(0 <= i < tym.len() && tym[i] == tym[i]);
                assert(tym.contains(tym[i]));
                assert(lists_intersect(tym, gm[e]));
            }
        }
    }
}

proof fn lemma_collect_field_gens_monotone(
    fm: Seq<int>,
    cm: Seq<Seq<int>>,
    t: int,
    gens: Seq<int>,
    cons: Seq<int>,
    e: int,
)
    requires
        0 <= t,
        gens.contains(e),
    ensures
        collect_field(fm, cm, t, gens, cons).0.contains(e),
    decreases fm.len() - t,
{
    if t < fm.len() {
        lemma_insert_uniq_contains(gens, fm[t], e);
        lemma_collect_field_gens_monotone(
            fm,
            cm,
            t + 1,
            insert_uniq(gens, fm[t]),
            add_cons(fm[t], cm, 0, cons),
            e,
        );
    }
}

proof fn lemma_collect_all_gens_monotone(
    fms: Seq<Seq<int>>,
    cm: Seq<Seq<int>>,
    i: int,
    gens: Seq<int>,
    cons: Seq<int>,
    e: int,
)
    requires
        0 <= i,
        gens.contains(e),
    ensures
        collect_all(fms, cm, i, gens, cons).0.contains(e),
    decreases fms.len() - i,
{
    if i < fms.len() {
        lemma_collect_field_gens_monotone(fms[i], cm, 0, gens, cons, e);
        let pr = collect_field(fms[i], cm, 0, gens, cons);
        lemma_collect_all_gens_monotone(fms, cm, i + 1, pr.0, pr.1, e);
    }
}

proof fn lemma_collect_field_gens_members(
    fm: Seq<int>,
    cm: Seq<Seq<int>>,
    t: int,
    gens: Seq<int>,
    cons: Seq<int>,
)
    requires
        0 <= t,
    ensures
        forall|q: int|
            0 <= q < collect_field(fm, cm, t, gens, cons).0.len() ==> gens.contains(
                #[trigger] collect_field(fm, cm, t, gens, cons).0[q],
            ) || fm.contains(collect_field(fm, cm, t, gens, cons).0[q]),
    decreases fm.len() - t,
{
    if t < fm.len() {
        let gens2 = insert_uniq(gens, fm[t]);
        let cons2 = add_cons(fm[t], cm, 0, cons);
        lemma_collect_field_gens_members(fm, cm, t + 1, gens2, cons2);
        assert(collect_field(fm, cm, t, gens, cons) == collect_field(fm, cm, t + 1, gens2, cons2));
        assert forall|q: int| 0 <= q < collect_field(fm, cm, t, gens, cons).0.len() implies
            gens.contains(#[trigger] collect_field(fm, cm, t, gens, cons).0[q]) || fm.contains(
            collect_field(fm, cm, t, gens, cons).0[q],
        ) by {
            let e = collect_field(fm, cm, t, gens, cons).0[q];
            assert(gens2.contains(collect_field(fm, cm, t + 1, gens2, cons2).0[q]) || fm.contains(
                collect_field(fm, cm, t + 1, gens2, cons2).0[q],
            ));
            if gens2.contains(e) && !gens.contains(e) {
                lemma_insert_uniq_contains(gens, fm[t], e);
                assert(e == fm[t]);
                assert(0 <= t < fm.len() && fm[t] == e);
                assert(fm.contains(e));
            }
        }
    }
}

proof fn lemma_collect_all_gens_members(
    fms: Seq<Seq<int>>,
    cm: Seq<Seq<int>>,
    i: int,
    gens: Seq<int>,
    cons: Seq<int>,
)
    requires
        0 <= i,
    ensures
        forall|q: int|
            0 <= q < collect_all(fms, cm, i, gens, cons).0.len() ==> gens.contains(
                #[trigger] collect_all(fms, cm, i, gens, cons).0[q],
            ) || exists|r: int|
                0 <= r < fms.len() && fms[r].contains(collect_all(fms, cm, i, gens, cons).0[q]),
    decreases fms.len() - i,
{
    if i < fms.len() {
        let pr = collect_field(fms[i], cm, 0, gens, cons);
        lemma_collect_field_gens_members(fms[i], cm, 0, gens, cons);
        lemma_collect_all_gens_members(fms, cm, i + 1, pr.0, pr.1);
        assert(collect_all(fms, cm, i, gens, cons) == collect_all(fms, cm, i + 1, pr.0, pr.1));
        assert forall|q: int| 0 <= q < collect_all(fms, cm, i, gens, cons).0.len() implies
            gens.contains(#[trigger] collect_all(fms, cm, i, gens, cons).0[q]) || exists|r: int|
            0 <= r < fms.len() && fms[r].contains(collect_all(fms, cm, i, gens, cons).0[q]) by {
            let e = collect_all(fms, cm, i, gens, cons).0[q];
            assert(pr.0.contains(collect_all(fms, cm, i + 1, pr.0, pr.1).0[q]) || exists|r: int|
                0 <= r < fms.len() && fms[r].contains(collect_all(fms, cm, i + 1, pr.0, pr.1).0[q]));
            if pr.0.contains(e) {
                let k2 = choose|k2: int| 0 <= k2 < pr.0.len() && pr.0[k2] == e;
                assert(pr.0[k2] == collect_field(fms[i], cm, 0, gens, cons).0[k2]);
                assert(gens.contains(e) || fms[i].contains(e));
                if fms[i].contains(e) {
                    assert(0 <= i < fms.len() && fms[i].contains(e));
                }
            }
        }
    }
}

proof fn lemma_add_cons_members(g: int, cm: Seq<Seq<int>>, w0: int, acc: Seq<int>)
    requires
        0 <= w0,
    ensures
        forall|q: int|
            0 <= q < add_cons(g, cm, w0, acc).len() ==> acc.contains(
                #[trigger] add_cons(g, cm, w0, acc)[q],
            ) || (0 <= add_cons(g, cm, w0, acc)[q] < cm.len() && cm[add_cons(
                g,
                cm,
                w0,
                acc,
            )[q]].contains(g)),
    decreases cm.len() - w0,
{
    if w0 < cm.len() {
        let acc2 = if cm[w0].contains(g) {
            insert_uniq(acc, w0)
        } else {
            acc
        };
        lemma_add_cons_members(g, cm, w0 + 1, acc2);
        assert(add_cons(g, cm, w0, acc) == add_cons(g, cm, w0 + 1, acc2));
        assert forall|q: int| 0 <= q < add_cons(g, cm, w0, acc).len() implies acc.contains(
            #[trigger] add_cons(g, cm, w0, acc)[q],
        ) || (0 <= add_cons(g, cm, w0, acc)[q] < cm.len() && cm[add_cons(g, cm, w0, acc)[q]].contains(
            g,
        )) by {
            let e = add_cons(g, cm, w0, acc)[q];
            assert(acc2.contains(add_cons(g, cm, w0 + 1, acc2)[q]) || (0 <= add_cons(
                g,
                cm,
                w0 + 1,
                acc2,
            )[q] < cm.len() && cm[add_cons(g, cm, w0 + 1, acc2)[q]].contains(g)));
            if acc2.contains(e) {
                lemma_insert_uniq_contains(acc, w0, e);
            }
        }
    }
}

proof fn lemma_collect_field_cons_members(
    fm: Seq<int>,
    cm: Seq<Seq<int>>,
    t: int,
    gens: Seq<int>,
    cons: Seq<int>,
)
    requires
        0 <= t,
    ensures
        forall|q: int|
            0 <= q < collect_field(fm, cm, t, gens, cons).1.len() ==> cons.contains(
                #[trigger] collect_field(fm, cm, t, gens, cons).1[q],
            ) || exists|g: int|
                #[trigger] collect_field(fm, cm, t, gens, cons).0.contains(g) && 0 <= collect_field(
                    fm,
                    cm,
                    t,
                    gens,
                    cons,
                ).1[q] < cm.len() && cm[collect_field(fm, cm, t, gens, cons).1[q]].contains(g),
    decreases fm.len() - t,
{
    if t < fm.len() {
        let gens2 = insert_uniq(gens, fm[t]);
        let cons2 = add_cons(fm[t], cm, 0, cons);
        lemma_add_cons_members(fm[t], cm, 0, cons);
        lemma_collect_field_cons_members(fm, cm, t + 1, gens2, cons2);
        assert(collect_field(fm, cm, t, gens, cons) == collect_field(fm, cm, t + 1, gens2, cons2));
        lemma_insert_uniq_contains(gens, fm[t], fm[t]);
        lemma_collect_field_gens_monotone(fm, cm, t + 1, gens2, cons2, fm[t]);
        assert forall|q: int| 0 <= q < collect_field(fm, cm, t, gens, cons).1.len() implies
            cons.contains(#[trigger] collect_field(fm, cm, t, gens, cons).1[q]) || exists|g: int|
            #[trigger] collect_field(fm, cm, t, gens, cons).0.contains(g) && 0 <= collect_field(
            fm,
            cm,
            t,
            gens,
            cons,
        ).1[q] < cm.len() && cm[collect_field(fm, cm, t, gens, cons).1[q]].contains(g) by {
            let e = collect_field(fm, cm, t, gens, cons).1[q];
            assert(cons2.contains(collect_field(fm, cm, t + 1, gens2, cons2).1[q]) || exists|g: int|
                #[trigger] collect_field(fm, cm, t + 1, gens2, cons2).0.contains(g) && 0 <= collect_field(
                fm,
                cm,
                t + 1,
                gens2,
                cons2,
            ).1[q] < cm.len() && cm[collect_field(fm, cm, t + 1, gens2, cons2).1[q]].contains(g));
            if cons2.contains(e) && !cons.contains(e) {
                let k2 = choose|k2: int| 0 <= k2 < cons2.len() && cons2[k2] == e;
                assert(cons2[k2] == add_cons(fm[t], cm, 0, cons)[k2]);
                assert(cons.contains(e) || (0 <= e < cm.len() && cm[e].contains(fm[t])));
                assert(collect_field(fm, cm, t, gens, cons).0.contains(fm[t]));
            }
        }
    }
}

proof fn lemma_collect_all_cons_members(
    fms: Seq<Seq<int>>,
    cm: Seq<Seq<int>>,
    i: int,
    gens: Seq<int>,
    cons: Seq<int>,
)
    requires
        0 <= i,
    ensures
        forall|q: int|
            0 <= q < collect_all(fms, cm, i, gens, cons).1.len() ==> cons.contains(
                #[trigger] collect_all(fms, cm, i, gens, cons).1[q],
            ) || exists|g: int|
                #[trigger] collect_all(fms, cm, i, gens, cons).0.contains(g) && 0 <= collect_all(
                    fms,
                    cm,
                    i,
                    gens,
                    cons,
                ).1[q] < cm.len() && cm[collect_all(fms, cm, i, gens, cons).1[q]].contains(g),
    decreases fms.len() - i,
{
    if i < fms.len() {
        let pr = collect_field(fms[i], cm, 0, gens, cons);
        lemma_collect_field_cons_members(fms[i], cm, 0, gens, cons);
        lemma_collect_all_cons_members(fms, cm, i + 1, pr.0, pr.1);
        assert(collect_all(fms, cm, i, gens, cons) == collect_all(fms, cm, i + 1, pr.0, pr.1));
        assert forall|q: int| 0 <= q < collect_all(fms, cm, i, gens, cons).1.len() implies
            cons.contains(#[trigger] collect_all(fms, cm, i, gens, cons).1[q]) || exists|g: int|
            #[trigger] collect_all(fms, cm, i, gens, cons).0.contains(g) && 0 <= collect_all(
            fms,
            cm,
            i,
            gens,
            cons,
        ).1[q] < cm.len() && cm[collect_all(fms, cm, i, gens, cons).1[q]].contains(g) by {
            let e = collect_all(fms, cm, i, gens, cons).1[q];
            assert(pr.1.contains(collect_all(fms, cm, i + 1, pr.0, pr.1).1[q]) || exists|g: int|
                #[trigger] collect_all(fms, cm, i + 1, pr.0, pr.1).0.contains(g) && 0 <= collect_all(
                fms,
                cm,
                i + 1,
                pr.0,
                pr.1,
            ).1[q] < cm.len() && cm[collect_all(fms, cm, i + 1, pr.0, pr.1).1[q]].contains(g));
            if pr.1.contains(e) && !cons.contains(e) {
                let k2 = choose|k2: int| 0 <= k2 < pr.1.len() && pr.1[k2] == e;
                assert(pr.1[k2] == collect_field(fms[i], cm, 0, gens, cons).1[k2]);
                assert(cons.contains(e) || exists|g: int|
                    #[trigger] collect_field(fms[i], cm, 0, gens, cons).0.contains(g) && 0 <= e < cm.len()
                        && cm[e].contains(g));
                let g = choose|g: int|
                    #[trigger] collect_field(fms[i], cm, 0, gens, cons).0.contains(g) && 0 <= e < cm.len()
                        && cm[e].contains(g);
                lemma_collect_all_gens_monotone(fms, cm, i + 1, pr.0, pr.1, g);
                assert(collect_all(fms, cm, i, gens, cons).0.contains(g));
            }
        }
    }
}

proof fn lemma_survivor_pairing(
    fs: Seq<FieldV>,
    fms: Seq<Seq<int>>,
    p: PolicyV,
    i: int,
    accf: Seq<FieldV>,
    accm: Seq<Seq<int>>,
    gm: Seq<Seq<Seq<char>>>,
)
    requires
        0 <= i,
        fms.len() == fs.len(),
        forall|j: int|
            0 <= j < fs.len() ==> #[trigger] fms[j] == gen_matches(mentions(fs[j].ty), gm),
        accm.len() == accf.len(),
        forall|t: int|
            0 <= t < accf.len() ==> #[trigger] accm[t] == gen_matches(mentions(accf[t].ty), gm),
    ensures
        survivor_fields(fs, fms, p, i, accf, accm).1.len() == survivor_fields(
            fs,
            fms,
            p,
            i,
            accf,
            accm,
        ).0.len(),
        forall|t: int|
            0 <= t < survivor_fields(fs, fms, p, i, accf, accm).0.len()
                ==> #[trigger] survivor_fields(fs, fms, p, i, accf, accm).1[t] == gen_matches(
                mentions(survivor_fields(fs, fms, p, i, accf, accm).0[t].ty),
                gm,
            ),
    decreases fs.len() - i,
{
    if i < fs.len() {
        if survives(p, fs[i].name) {
            assert forall|t: int| 0 <= t < accf.push(fs[i]).len() implies #[trigger] accm.push(
                fms[i],
            )[t] == gen_matches(mentions(accf.push(fs[i])[t].ty), gm) by {
                if t < accf.len() {
                    assert(accf.push(fs[i])[t] == accf[t]);
                    assert(accm.push(fms[i])[t] == accm[t]);
                } else {
                    assert(accf.push(fs[i])[t] == fs[i]);
                    assert(accm.push(fms[i])[t] == fms[i]);
                }
            }
            lemma_survivor_pairing(fs, fms, p, i + 1, accf.push(fs[i]), accm.push(fms[i]), gm);
        } else {
            lemma_survivor_pairing(fs, fms, p, i + 1, accf, accm, gm);
        }
    }
}

/// The fields a variant's scan runs over: the surviving base fields
/// followed by the upsert fields.
pub open spec fn variant_scan_fields(sc: SchemaV, mi: MatchIndexV, vs: VariantSpecV) -> Seq<
    FieldV,
> {
    let p = resolve_policy_of(sc.attrs, vs.actions);
    survivor_fields(sc.fields, mi.field_matches, p, 0, Seq::empty(), Seq::empty()).0
        + p.upsert_fields
}

/// Pruning soundness, generic parameters: every generic in the emitted
/// list is activated by some field of the variant's scan — that field's
/// type mentions an identifier the parameter's declaration also mentions.
pub proof fn lemma_pruning_soundness_generics(
    sc: SchemaV,
    mi: MatchIndexV,
    vs: VariantSpecV,
    t: int,
)
    requires
        mi == match_index_of(sc),
        0 <= t < spec_build_variant(sc, mi, vs).generics.len(),
    ensures
        exists|k: int|
            0 <= k < variant_scan_fields(sc, mi, vs).len() && lists_intersect(
                mentions(#[trigger] variant_scan_fields(sc, mi, vs)[k].ty),
                mentions(spec_build_variant(sc, mi, vs).generics[t]),
            ),
{
    let p = resolve_policy_of(sc.attrs, vs.actions);
    let sv = survivor_fields(sc.fields, mi.field_matches, p, 0, Seq::empty(), Seq::empty());
    let um = upsert_matches(p.upsert_fields, mi.generic_mentions);
    let am = sv.1 + um;
    let cm = mi.constraint_matches;
    let gw = collect_all(am, cm, 0, Seq::empty(), Seq::empty());
    let gm = mi.generic_mentions;
    let allf = variant_scan_fields(sc, mi, vs);
    let g = gw.0[t];
    assert(spec_build_variant(sc, mi, vs).generics[t] == sc.generics[g]);
    lemma_collect_all_gens_members(am, cm, 0, Seq::empty(), Seq::empty());
    assert(Seq::<int>::empty().contains(g) || exists|r: int|
        0 <= r < am.len() && am[r].contains(g));
    if Seq::<int>::empty().contains(g) {
        let q = choose|q: int|
            0 <= q < Seq::<int>::empty().len() && Seq::<int>::empty()[q] == g;
        assert(false);
    }
    let r = choose|r: int| 0 <= r < am.len() && am[r].contains(g);
    assert(forall|j: int|
        0 <= j < sc.fields.len() ==> #[trigger] mi.field_matches[j] == gen_matches(
            mentions(sc.fields[j].ty),
            gm,
        ));
    lemma_survivor_pairing(sc.fields, mi.field_matches, p, 0, Seq::empty(), Seq::empty(), gm);
    assert(sv.0.len() == sv.1.len());
    assert(allf.len() == am.len());
    // the match list at r belongs to the field at r
    assert(am[r] == gen_matches(mentions(allf[r].ty), gm)) by {
        if r < sv.1.len() {
            assert(am[r] == sv.1[r]);
            assert(allf[r] == sv.0[r]);
        } else {
            assert(am[r] == um[r - sv.1.len()]);
            assert(allf[r] == p.upsert_fields[r - sv.0.len()]);
            assert(um[r - sv.1.len()] == gen_matches(
                mentions(p.upsert_fields[r - sv.1.len()].ty),
                gm,
            ));
        }
    }
    // a matched generic's mention-set meets the type's
    let q2 = choose|q2: int| 0 <= q2 < am[r].len() && am[r][q2] == g;
    lemma_gen_matches_members(mentions(allf[r].ty), gm, 0, Seq::empty());
    assert(gen_matches_from(mentions(allf[r].ty), gm, 0, Seq::empty())[q2] == g);
    assert(Seq::<int>::empty().contains(g) || (0 <= g < gm.len() && lists_intersect(
        mentions(allf[r].ty),
        gm[g],
    )));
    assert(gm[g] == mentions(sc.generics[g]));
    assert(0 <= r < allf.len() && lists_intersect(
        mentions(allf[r].ty),
        mentions(spec_build_variant(sc, mi, vs).generics[t]),
    ));
}

/// Pruning soundness, constraints: every emitted constraint is activated
/// by some emitted generic parameter — the two mention-sets meet.
pub proof fn lemma_pruning_soundness_constraints(
    sc: SchemaV,
    mi: MatchIndexV,
    vs: VariantSpecV,
    t: int,
)
    requires
        mi == match_index_of(sc),
        0 <= t < spec_build_variant(sc, mi, vs).constraints.len(),
    ensures
        exists|q: int|
            0 <= q < spec_build_variant(sc, mi, vs).generics.len() && lists_intersect(
                mentions(spec_build_variant(sc, mi, vs).constraints[t]),
                mentions(#[trigger] spec_build_variant(sc, mi, vs).generics[q]),
            ),
{
    let p = resolve_policy_of(sc.attrs, vs.actions);
    let sv = survivor_fields(sc.fields, mi.field_matches, p, 0, Seq::empty(), Seq::empty());
    let um = upsert_matches(p.upsert_fields, mi.generic_mentions);
    let am = sv.1 + um;
    let cm = mi.constraint_matches;
    let gw = collect_all(am, cm, 0, Seq::empty(), Seq::empty());
    let gm = mi.generic_mentions;
    let w = gw.1[t];
    assert(spec_build_variant(sc, mi, vs).constraints[t] == sc.constraints[w]);
    lemma_collect_all_cons_members(am, cm, 0, Seq::empty(), Seq::empty());
    assert(Seq::<int>::empty().contains(w) || exists|g: int|
        #[trigger] gw.0.contains(g) && 0 <= w < cm.len() && cm[w].contains(g));
    if Seq::<int>::empty().contains(w) {
        let q = choose|q: int|
            0 <= q < Seq::<int>::empty().len() && Seq::<int>::empty()[q] == w;
        assert(false);
    }
    let g = choose|g: int| #[trigger] gw.0.contains(g) && 0 <= w < cm.len() && cm[w].contains(g);
    let qq = choose|qq: int| 0 <= qq < gw.0.len() && gw.0[qq] == g;
    assert(spec_build_variant(sc, mi, vs).generics[qq] == sc.generics[g]);
    // the constraint's match list meets g: its mention-set meets g's
    assert(cm[w] == gen_matches(mentions(sc.constraints[w]), gm));
    let q2 = choose|q2: int| 0 <= q2 < cm[w].len() && cm[w][q2] == g;
    lemma_gen_matches_members(mentions(sc.constraints[w]), gm, 0, Seq::empty());
    assert(gen_matches_from(mentions(sc.constraints[w]), gm, 0, Seq::empty())[q2] == g);
    assert(Seq::<int>::empty().contains(g) || (0 <= g < gm.len() && lists_intersect(
        mentions(sc.constraints[w]),
        gm[g],
    )));
    if Seq::<int>::empty().contains(g) {
        let q3 = choose|q3: int|
            0 <= q3 < Seq::<int>::empty().len() && Seq::<int>::empty()[q3] == g;
        assert(false);
    }
    assert(gm[g] == mentions(sc.generics[g]));
    assert(0 <= qq < spec_build_variant(sc, mi, vs).generics.len() && lists_intersect(
        mentions(spec_build_variant(sc, mi, vs).constraints[t]),
        mentions(spec_build_variant(sc, mi, vs).generics[qq]),
    ));
}

// ---------------------------------------------------------------------------
// The emitted lists are insertion-ordered sets
// ---------------------------------------------------------------------------
proof fn lemma_insert_uniq_no_dup<A>(s: Seq<A>, x: A)
    requires
        s.no_duplicates(),
    ensures
        insert_uniq(s, x).no_duplicates(),
{
    if !s.contains(x) {
        let r = s.push(x);
        assert forall|a: int, b: int|
            0 <= a < r.len() && 0 <= b < r.len() && a != b implies r[a] != r[b] by {
            if a < s.len() && b < s.len() {
            } else if a < s.len() {
                if s[a] == x {
                    assert(s.contains(x));
                }
            } else if b < s.len() {
                if s[b] == x {
                    assert(s.contains(x));
                }
            }
        }
    }
}

proof fn lemma_add_cons_no_dup(g: int, cm: Seq<Seq<int>>, w0: int, acc: Seq<int>)
    requires
        0 <= w0,
        acc.no_duplicates(),
    ensures
        add_cons(g, cm, w0, acc).no_duplicates(),
    decreases cm.len() - w0,
{
    if w0 < cm.len() {
        if cm[w0].contains(g) {
            lemma_insert_uniq_no_dup(acc, w0);
            lemma_add_cons_no_dup(g, cm, w0 + 1, insert_uniq(acc, w0));
        } else {
            lemma_add_cons_no_dup(g, cm, w0 + 1, acc);
        }
    }
}

proof fn lemma_collect_field_no_dup(
    fm: Seq<int>,
    cm: Seq<Seq<int>>,
    t: int,
    gens: Seq<int>,
    cons: Seq<int>,
)
    requires
        0 <= t,
        gens.no_duplicates(),
        cons.no_duplicates(),
    ensures
        collect_field(fm, cm, t, gens, cons).0.no_duplicates(),
        collect_field(fm, cm, t, gens, cons).1.no_duplicates(),
    decreases fm.len() - t,
{
    if t < fm.len() {
        lemma_insert_uniq_no_dup(gens, fm[t]);
        lemma_add_cons_no_dup(fm[t], cm, 0, cons);
        lemma_collect_field_no_dup(
            fm,
            cm,
            t + 1,
            insert_uniq(gens, fm[t]),
            add_cons(fm[t], cm, 0, cons),
        );
    }
}

proof fn lemma_collect_all_no_dup(
    fms: Seq<Seq<int>>,
    cm: Seq<Seq<int>>,
    i: int,
    gens: Seq<int>,
    cons: Seq<int>,
)
    requires
        0 <= i,
        gens.no_duplicates(),
        cons.no_duplicates(),
    ensures
        collect_all(fms, cm, i, gens, cons).0.no_duplicates(),
        collect_all(fms, cm, i, gens, cons).1.no_duplicates(),
    decreases fms.len() - i,
{
    if i < fms.len() {
        lemma_collect_field_no_dup(fms[i], cm, 0, gens, cons);
        let pr = collect_field(fms[i], cm, 0, gens, cons);
        lemma_collect_all_no_dup(fms, cm, i + 1, pr.0, pr.1);
    }
}

/// The index lists the builder collects the emitted generics and
/// constraints from hold no duplicates: each activated parameter and
/// predicate is emitted once, at its first activation.
pub proof fn lemma_activation_lists_distinct(sc: SchemaV, mi: MatchIndexV, vs: VariantSpecV)
    ensures
        ({
            let p = resolve_policy_of(sc.attrs, vs.actions);
            let sv = survivor_fields(sc.fields, mi.field_matches, p, 0, Seq::empty(), Seq::empty());
            let am = sv.1 + upsert_matches(p.upsert_fields, mi.generic_mentions);
            let gw = collect_all(am, mi.constraint_matches, 0, Seq::empty(), Seq::empty());
            gw.0.no_duplicates() && gw.1.no_duplicates()
        }),
{
    let p = resolve_policy_of(sc.attrs, vs.actions);
    let sv = survivor_fields(sc.fields, mi.field_matches, p, 0, Seq::empty(), Seq::empty());
    let am = sv.1 + upsert_matches(p.upsert_fields, mi.generic_mentions);
    assert(Seq::<int>::empty().no_duplicates());
    lemma_collect_all_no_dup(am, mi.constraint_matches, 0, Seq::empty(), Seq::empty());
}

proof fn lemma_dedup_names_distinct_from(fs: Seq<FieldV>, i: int, acc: Seq<FieldV>)
    requires
        0 <= i,
        names_distinct(acc),
    ensures
        names_distinct(dedup_fields_from(fs, i, acc)),
    decreases fs.len() - i,
{
    if i < fs.len() {
        if has_field_named(acc, fs[i].name) {
            lemma_dedup_names_distinct_from(fs, i + 1, acc);
        } else {
            let acc2 = acc.push(fs[i]);
            assert forall|a: int, b: int| 0 <= a < b < acc2.len() implies acc2[a].name
                != acc2[b].name by {
                if b == acc.len() {
                    assert(acc2[b] == fs[i]);
                    assert(acc2[a] == acc[a]);
                    if acc[a].name == fs[i].name {
                        assert(has_field_named(acc, fs[i].name));
                    }
                }
            }
            lemma_dedup_names_distinct_from(fs, i + 1, acc2);
        }
    }
}

/// The emitted field list is an insertion-ordered set keyed by name: no
/// two emitted fields share a name.
pub proof fn lemma_emitted_fields_name_distinct(sc: SchemaV, mi: MatchIndexV, vs: VariantSpecV)
    ensures
        names_distinct(spec_build_variant(sc, mi, vs).fields),
{
    let p = resolve_policy_of(sc.attrs, vs.actions);
    let sv = survivor_fields(sc.fields, mi.field_matches, p, 0, Seq::empty(), Seq::empty());
    assert(names_distinct(Seq::<FieldV>::empty()));
    lemma_dedup_names_distinct_from(sv.0 + p.upsert_fields, 0, Seq::empty());
}

/// A schema that parses holds name-distinct fields: parsing deduplicates
/// the field list, keeping the first occurrence of each name.  So the
/// hypothesis of `lemma_order_preservation` on the base fields holds of
/// every schema the parser hands out.
pub proof fn lemma_parsed_fields_distinct(s: Seq<char>)
    requires
        parse_schema_text(s) is Ok,
    ensures
        names_distinct(parse_schema_text(s)->Ok_0.0.fields),
{
    let n = s.len() as int;
    match parse_field_attrs(s, 0, n, Seq::empty()) {
        None => {},
        Some((attrs, p0)) => match parse_vis(s, p0) {
            None => {},
            Some((vis, p1)) => match parse_generics(s, spec_skip_ws(s, p1)) {
                None => {},
                Some((gens, p2)) => match parse_constraints(s, p2) {
                    None => {},
                    Some((cons, p3)) => {
                        if p3 < n && s[p3] == '{' {
                            match split_list(s, p3 + 1, '}') {
                                None => {},
                                Some((fps, fend)) => match fields_of_pieces(s, fps, Seq::empty()) {
                                    None => {},
                                    Some(fraw) => {
                                        assert(names_distinct(Seq::<FieldV>::empty()));
                                        lemma_dedup_names_distinct_from(fraw, 0, Seq::empty());
                                    },
                                },
                            }
                        }
                    },
                },
            },
        },
    }
}

} // verus!
