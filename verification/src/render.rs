//! Rendering one variant's output model as declaration text: the attribute
//! lines, the visibility, the name, the pruned generic list, the constraint
//! clause (dropped when empty), and either a named-field body or a
//! positional-type body.  Rendering is a pure function of the model, so
//! repeated runs over equal input give byte-identical text.
use crate::model::{str_views, Field, FieldV, VariantOutput, VariantOutputV};
use vstd::prelude::*;
use vstd::string::*;

verus! {

// ---------------------------------------------------------------------------
// Joining
// ---------------------------------------------------------------------------
pub open spec fn join_from(items: Seq<Seq<char>>, sep: Seq<char>, i: int, acc: Seq<char>) -> Seq<
    char,
>
    decreases items.len() - i,
{
    if i < 0 || i >= items.len() {
        acc
    } else {
        join_from(
            items,
            sep,
            i + 1,
            if i == 0 {
                acc + items[0]
            } else {
                acc + sep + items[i]
            },
        )
    }
}

/// The items in order with `sep` between each adjacent pair.
pub open spec fn join_texts(items: Seq<Seq<char>>, sep: Seq<char>) -> Seq<char> {
    join_from(items, sep, 0, Seq::empty())
}

pub fn join_strings(items: &Vec<String>, sep: &str) -> (r: String)
    ensures
        r@ == join_texts(str_views(items@), sep@),
{
    let mut out = String::new();
    let mut i: usize = 0;
    proof {
        assert(out@ =~= Seq::<char>::empty());
    }
    while i < items.len()
        invariant
            i <= items@.len(),
            join_texts(str_views(items@), sep@) == join_from(
                str_views(items@),
                sep@,
                i as int,
                out@,
            ),
        decreases items@.len() - i,
    {
        if i > 0 {
            out.append(sep);
        }
        out.append(items[i].as_str());
        proof {
            assert(str_views(items@)[i as int] == items@[i as int]@);
        }
        i += 1;
    }
    out
}

// ---------------------------------------------------------------------------
// Fields
// ---------------------------------------------------------------------------
/// Attributes written inline before a field, each followed by one space.
pub open spec fn attrs_inline_from(attrs: Seq<Seq<char>>, i: int, acc: Seq<char>) -> Seq<char>
    decreases attrs.len() - i,
{
    if i < 0 || i >= attrs.len() {
        acc
    } else {
        attrs_inline_from(attrs, i + 1, acc + attrs[i] + " "@)
    }
}

/// One named field: its attributes, its name, a colon, its type text.
pub open spec fn render_field_text(f: FieldV) -> Seq<char> {
    attrs_inline_from(f.attrs, 0, Seq::empty()) + f.name + ": "@ + f.ty
}

pub fn render_field(f: &Field) -> (r: String)
    ensures
        r@ == render_field_text(f@),
{
    let mut out = String::new();
    let mut i: usize = 0;
    proof {
        assert(out@ =~= Seq::<char>::empty());
    }
    while i < f.attrs.len()
        invariant
            i <= f.attrs@.len(),
            attrs_inline_from(f@.attrs, 0, Seq::empty()) == attrs_inline_from(
                f@.attrs,
                i as int,
                out@,
            ),
        decreases f.attrs@.len() - i,
    {
        out.append(f.attrs[i].as_str());
        out.append(" ");
        proof {
            assert(f@.attrs[i as int] == f.attrs@[i as int]@);
        }
        i += 1;
    }
    out.append(f.name.as_str());
    out.append(": ");
    out.append(f.ty.as_str());
    out
}

/// Attributes written above a declaration, one per line.
pub open spec fn attrs_lines_from(attrs: Seq<Seq<char>>, i: int, acc: Seq<char>) -> Seq<char>
    decreases attrs.len() - i,
{
    if i < 0 || i >= attrs.len() {
        acc
    } else {
        attrs_lines_from(attrs, i + 1, acc + attrs[i] + "\n"@)
    }
}

// ---------------------------------------------------------------------------
// The declaration
// ---------------------------------------------------------------------------
/// The rendered declaration of one variant.
pub open spec fn render_variant_text(v: VariantOutputV) -> Seq<char> {
    let attrs = attrs_lines_from(v.attributes, 0, Seq::empty());
    let vis = match v.vis {
        Some(t) => t + " "@,
        None => Seq::<char>::empty(),
    };
    let gens = if v.generics.len() == 0 {
        Seq::<char>::empty()
    } else {
        "<"@ + join_texts(v.generics, ", "@) + ">"@
    };
    let wh = if v.constraints.len() == 0 {
        Seq::<char>::empty()
    } else {
        " where "@ + join_texts(v.constraints, ", "@)
    };
    let head = attrs + vis + "struct "@ + v.name + gens;
    if v.is_tuple {
        head + "("@ + join_texts(v.fields.map_values(|f: FieldV| f.ty), ", "@) + ")"@ + wh + ";"@
    } else if v.fields.len() == 0 {
        head + wh + " {}"@
    } else {
        head + wh + " { "@ + join_texts(
            v.fields.map_values(|f: FieldV| render_field_text(f)),
            ", "@,
        ) + " }"@
    }
}

pub fn render_variant(v: &VariantOutput) -> (r: String)
    ensures
        r@ == render_variant_text(v@),
{
    let ghost vv = v@;
    let ghost attrs_part = attrs_lines_from(vv.attributes, 0, Seq::<char>::empty());
    let ghost vis_part: Seq<char> = match vv.vis {
        Some(t) => t + " "@,
        None => Seq::<char>::empty(),
    };
    let ghost gens_part: Seq<char> = if vv.generics.len() == 0 {
        Seq::<char>::empty()
    } else {
        "<"@ + join_texts(vv.generics, ", "@) + ">"@
    };
    let ghost wh_part: Seq<char> = if vv.constraints.len() == 0 {
        Seq::<char>::empty()
    } else {
        " where "@ + join_texts(vv.constraints, ", "@)
    };
    let ghost head = attrs_part + vis_part + "struct "@ + vv.name + gens_part;
    let mut out = String::new();
    let mut i: usize = 0;
    proof {
        assert(out@ =~= Seq::<char>::empty());
    }
    while i < v.attributes.len()
        invariant
            i <= v.attributes@.len(),
            vv == v@,
            attrs_part == attrs_lines_from(vv.attributes, 0, Seq::<char>::empty()),
            attrs_part == attrs_lines_from(vv.attributes, i as int, out@),
        decreases v.attributes@.len() - i,
    {
        out.append(v.attributes[i].as_str());
        out.append("\n");
        proof {
            assert(vv.attributes[i as int] == v.attributes@[i as int]@);
        }
        i += 1;
    }
    proof {
        assert(out@ == attrs_part);
    }
    match &v.vis {
        Some(t) => {
            out.append(t.as_str());
            out.append(" ");
        },
        None => {},
    }
    proof {
        assert(out@ =~= attrs_part + vis_part);
    }
    out.append("struct ");
    out.append(v.name.as_str());
    proof {
        assert(out@ =~= attrs_part + vis_part + "struct "@ + vv.name);
    }
    if v.generics.len() > 0 {
        out.append("<");
        let j = join_strings(&v.generics, ", ");
        out.append(j.as_str());
        out.append(">");
    }
    proof {
        assert(out@ =~= head);
    }
    let mut wh = String::new();
    proof {
        assert(wh@ =~= Seq::<char>::empty());
    }
    if v.constraints.len() > 0 {
        wh.append(" where ");
        let j = join_strings(&v.constraints, ", ");
        wh.append(j.as_str());
    }
    proof {
        assert(wh@ =~= wh_part);
    }
    if v.is_tuple {
        out.append("(");
        let mut tys: Vec<String> = Vec::new();
        let mut t: usize = 0;
        proof {
            assert(str_views(tys@) =~= Seq::<Seq<char>>::empty());
        }
        while t < v.fields.len()
            invariant
                t <= v.fields@.len(),
                vv == v@,
                tys@.len() == t,
                forall|q: int| 0 <= q < t ==> str_views(tys@)[q] == vv.fields[q].ty,
            decreases v.fields@.len() - t,
        {
            let ghost pre = str_views(tys@);
            tys.push(v.fields[t].ty.clone());
            proof {
                assert(str_views(tys@) =~= pre.push(v.fields@[t as int].ty@));
                assert(vv.fields[t as int].ty == v.fields@[t as int].ty@);
            }
            t += 1;
        }
        proof {
            assert(str_views(tys@) =~= vv.fields.map_values(|f: FieldV| f.ty));
        }
        let j = join_strings(&tys, ", ");
        out.append(j.as_str());
        out.append(")");
        out.append(wh.as_str());
        out.append(";");
        proof {
            assert(out@ =~= render_variant_text(vv));
        }
        out
    } else {
        out.append(wh.as_str());
        if v.fields.len() == 0 {
            out.append(" {}");
            proof {
                assert(out@ =~= render_variant_text(vv));
            }
            out
        } else {
            out.append(" { ");
            let mut rfs: Vec<String> = Vec::new();
            let mut t: usize = 0;
            proof {
                assert(str_views(rfs@) =~= Seq::<Seq<char>>::empty());
            }
            while t < v.fields.len()
                invariant
                    t <= v.fields@.len(),
                    vv == v@,
                    rfs@.len() == t,
                    forall|q: int|
                        0 <= q < t ==> str_views(rfs@)[q] == render_field_text(vv.fields[q]),
                decreases v.fields@.len() - t,
            {
                let ghost pre = str_views(rfs@);
                let rf = render_field(&v.fields[t]);
                let ghost rfv = rf@;
                rfs.push(rf);
                proof {
                    assert(str_views(rfs@) =~= pre.push(rfv));
                    assert(vv.fields[t as int] == v.fields@[t as int]@);
                }
                t += 1;
            }
            proof {
                assert(str_views(rfs@) =~= vv.fields.map_values(
                    |f: FieldV| render_field_text(f),
                ));
            }
            let j = join_strings(&rfs, ", ");
            out.append(j.as_str());
            out.append(" }");
            proof {
                assert(out@ =~= render_variant_text(vv));
            }
            out
        }
    }
}

} // verus!
