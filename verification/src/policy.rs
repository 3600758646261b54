//! Folding a variant's action sequence into its resolved selection policy,
//! and the field-survival test that policy induces.
use crate::model::{
    action_views, field_views, str_views, union_uniq, Action, ActionV, Field, FieldV,
    PolicyV, ResolvedPolicy, clone_strings, contains_string, extend_uniq, push_uniq,
};
use vstd::prelude::*;

verus! {

/// Names of a field list, in order.
pub open spec fn names_of(fs: Seq<FieldV>) -> Seq<Seq<char>> {
    fs.map_values(|f: FieldV| f.name)
}

/// The policy every variant starts from: nothing omitted, nothing included,
/// no upserts, the schema's shared attributes, struct mode.
pub open spec fn initial_policy(top_attrs: Seq<Seq<char>>) -> PolicyV {
    PolicyV {
        omitted: Seq::empty(),
        included: Seq::empty(),
        upsert_names: Seq::empty(),
        upsert_fields: Seq::empty(),
        attributes: top_attrs,
        is_tuple: false,
    }
}

/// Fold one action into the policy: `omit`/`include` payloads join their
/// sets, `attr` payloads append, `upsert` fields append (their names joining
/// the upsert-name set), and `as_tuple` switches tuple mode on for good.
pub open spec fn apply_action(p: PolicyV, a: ActionV) -> PolicyV {
    match a {
        ActionV::Omit(ns) => PolicyV {
            omitted: union_uniq(p.omitted, ns),
            included: p.included,
            upsert_names: p.upsert_names,
            upsert_fields: p.upsert_fields,
            attributes: p.attributes,
            is_tuple: p.is_tuple,
        },
        ActionV::Include(ns) => PolicyV {
            omitted: p.omitted,
            included: union_uniq(p.included, ns),
            upsert_names: p.upsert_names,
            upsert_fields: p.upsert_fields,
            attributes: p.attributes,
            is_tuple: p.is_tuple,
        },
        ActionV::Attr(ats) => PolicyV {
            omitted: p.omitted,
            included: p.included,
            upsert_names: p.upsert_names,
            upsert_fields: p.upsert_fields,
            attributes: p.attributes + ats,
            is_tuple: p.is_tuple,
        },
        ActionV::Upsert(fs) => PolicyV {
            omitted: p.omitted,
            included: p.included,
            upsert_names: union_uniq(p.upsert_names, names_of(fs)),
            upsert_fields: p.upsert_fields + fs,
            attributes: p.attributes,
            is_tuple: p.is_tuple,
        },
        ActionV::AsTuple => PolicyV {
            omitted: p.omitted,
            included: p.included,
            upsert_names: p.upsert_names,
            upsert_fields: p.upsert_fields,
            attributes: p.attributes,
            is_tuple: true,
        },
    }
}

pub open spec fn fold_actions(p: PolicyV, acts: Seq<ActionV>) -> PolicyV
    decreases acts.len(),
{
    if acts.len() == 0 {
        p
    } else {
        fold_actions(apply_action(p, acts[0]), acts.drop_first())
    }
}

/// The policy a variant's whole action sequence resolves to.
pub open spec fn resolve_policy_of(top_attrs: Seq<Seq<char>>, acts: Seq<ActionV>) -> PolicyV {
    fold_actions(initial_policy(top_attrs), acts)
}

/// Whether a base field named `name` survives under policy `p`: with an
/// allow-list present, exactly the allowed names not overridden by an
/// upsert; otherwise every name neither omitted nor overridden.
pub open spec fn survives(p: PolicyV, name: Seq<char>) -> bool {
    if p.included.len() > 0 {
        p.included.contains(name) && !p.upsert_names.contains(name)
    } else {
        !p.omitted.contains(name) && !p.upsert_names.contains(name)
    }
}

/// Allow/deny exclusivity: once an allow-list is present, survival depends
/// only on the allow-list and the upsert names — two policies that agree on
/// those agree on the survival of every field name, whatever either one
/// omits.
pub proof fn lemma_allow_deny_exclusive(p1: PolicyV, p2: PolicyV, name: Seq<char>)
    requires
        p1.included.len() > 0,
        p1.included == p2.included,
        p1.upsert_names == p2.upsert_names,
    ensures
        survives(p1, name) == survives(p2, name),
{
}

// ---------------------------------------------------------------------------
// Executable resolution
// ---------------------------------------------------------------------------
fn append_strings(v: &mut Vec<String>, xs: &Vec<String>)
    ensures
        str_views(final(v)@) == str_views(old(v)@) + str_views(xs@),
{
    let mut k: usize = 0;
    while k < xs.len()
        invariant
            k <= xs@.len(),
            str_views(v@) == str_views(old(v)@) + str_views(xs@).take(k as int),
        decreases xs@.len() - k,
    {
        let ghost pre = str_views(v@);
        v.push(xs[k].clone());
        proof {
            assert(str_views(v@) =~= pre.push(str_views(xs@)[k as int]));
            assert(str_views(old(v)@) + str_views(xs@).take(k + 1 as int) =~= pre.push(
                str_views(xs@)[k as int],
            ));
        }
        k += 1;
    }
    proof {
        assert(str_views(xs@).take(xs@.len() as int) =~= str_views(xs@));
    }
}

fn apply_upsert(names: &mut Vec<String>, fields: &mut Vec<Field>, fs: &Vec<Field>)
    ensures
        str_views(final(names)@) == union_uniq(
            str_views(old(names)@),
            names_of(field_views(fs@)),
        ),
        field_views(final(fields)@) == field_views(old(fields)@) + field_views(fs@),
{
    let ghost all = names_of(field_views(fs@));
    let mut k: usize = 0;
    proof {
        assert(all.skip(0) =~= all);
        assert(field_views(fields@) =~= field_views(old(fields)@) + field_views(fs@).take(0));
    }
    while k < fs.len()
        invariant
            k <= fs@.len(),
            all == names_of(field_views(fs@)),
            union_uniq(str_views(old(names)@), all) == union_uniq(
                str_views(names@),
                all.skip(k as int),
            ),
            field_views(fields@) == field_views(old(fields)@) + field_views(fs@).take(k as int),
        decreases fs@.len() - k,
    {
        let ghost pren = str_views(names@);
        let ghost pref = field_views(fields@);
        proof {
            assert(all.skip(k as int)[0] == all[k as int]);
            assert(all.skip(k as int).drop_first() =~= all.skip(k + 1 as int));
            assert(all[k as int] == field_views(fs@)[k as int].name);
        }
        push_uniq(names, fs[k].name.clone());
        fields.push(fs[k].clone());
        proof {
            assert(field_views(fields@) =~= pref.push(field_views(fs@)[k as int]));
            assert(field_views(old(fields)@) + field_views(fs@).take(k + 1 as int) =~= pref.push(
                field_views(fs@)[k as int],
            ));
        }
        k += 1;
    }
    proof {
        assert(all.skip(fs@.len() as int) =~= Seq::<Seq<char>>::empty());
        assert(field_views(fs@).take(fs@.len() as int) =~= field_views(fs@));
    }
}

/// Fold a variant's actions, left to right, into its resolved policy, the
/// schema's shared attributes standing first in the attribute list.
pub fn resolve_policy(top_attrs: &Vec<String>, actions: &Vec<Action>) -> (r: ResolvedPolicy)
    ensures
        r@ == resolve_policy_of(str_views(top_attrs@), action_views(actions@)),
{
    let mut omitted: Vec<String> = Vec::new();
    let mut included: Vec<String> = Vec::new();
    let mut upsert_names: Vec<String> = Vec::new();
    let mut upsert_fields: Vec<Field> = Vec::new();
    let mut attributes: Vec<String> = clone_strings(top_attrs);
    let mut is_tuple: bool = false;
    let ghost acts = action_views(actions@);
    proof {
        assert(str_views(omitted@) =~= Seq::<Seq<char>>::empty());
        assert(str_views(included@) =~= Seq::<Seq<char>>::empty());
        assert(str_views(upsert_names@) =~= Seq::<Seq<char>>::empty());
        assert(field_views(upsert_fields@) =~= Seq::<FieldV>::empty());
        assert(acts.skip(0) =~= acts);
    }
    let mut k: usize = 0;
    while k < actions.len()
        invariant
            k <= actions@.len(),
            acts == action_views(actions@),
            resolve_policy_of(str_views(top_attrs@), acts) == fold_actions(
                PolicyV {
                    omitted: str_views(omitted@),
                    included: str_views(included@),
                    upsert_names: str_views(upsert_names@),
                    upsert_fields: field_views(upsert_fields@),
                    attributes: str_views(attributes@),
                    is_tuple: is_tuple,
                },
                acts.skip(k as int),
            ),
        decreases actions@.len() - k,
    {
        proof {
            assert(acts.skip(k as int)[0] == acts[k as int]);
            assert(acts.skip(k as int).drop_first() =~= acts.skip(k + 1 as int));
            assert(acts[k as int] == actions@[k as int]@);
        }
        match &actions[k] {
            Action::Omit(ns) => {
                extend_uniq(&mut omitted, ns);
            },
            Action::Include(ns) => {
                extend_uniq(&mut included, ns);
            },
            Action::Attr(ats) => {
                append_strings(&mut attributes, ats);
            },
            Action::Upsert(fs) => {
                apply_upsert(&mut upsert_names, &mut upsert_fields, fs);
            },
            Action::AsTuple => {
                is_tuple = true;
            },
        }
        k += 1;
    }
    proof {
        assert(acts.skip(actions@.len() as int) =~= Seq::<ActionV>::empty());
    }
    ResolvedPolicy { omitted, included, upsert_names, upsert_fields, attributes, is_tuple }
}

/// The executable survival test.
pub fn survives_field(p: &ResolvedPolicy, name: &String) -> (r: bool)
    ensures
        r == survives(p@, name@),
{
    if p.included.len() > 0 {
        contains_string(&p.included, name) && !contains_string(&p.upsert_names, name)
    } else {
        !contains_string(&p.omitted, name) && !contains_string(&p.upsert_names, name)
    }
}

} // verus!
