//! A declarative struct-variant generator.
//!
//! Given one base record schema (fields, optional generic parameters,
//! optional constraints, optional attributes) and a named list of variant
//! specifications, the library derives a full declaration for each variant,
//! with the generic-parameter and constraint lists pruned to exactly what
//! the surviving fields lexically mention.
use vstd::prelude::*;

pub mod builder;
pub mod laws;
pub mod matching;
pub mod model;
pub mod parse;
pub mod policy;
pub mod render;
pub mod scan;

use crate::builder::{
    build_match_index, build_variant, match_index_of, spec_build_variant, MatchIndexV,
};
use crate::model::{str_views, variant_spec_views, DeriveError, ErrV, SchemaV, VariantSpecV};
use crate::parse::{parse_schema, parse_schema_text};
use crate::render::{render_variant, render_variant_text};

verus! {

/// The derivation, specified: for each variant of the parsed table, the
/// rendered text of the built output model.
pub open spec fn outputs_of(sc: SchemaV, mi: MatchIndexV, vars: Seq<VariantSpecV>) -> Seq<
    Seq<char>,
> {
    vars.map_values(|v: VariantSpecV| render_variant_text(spec_build_variant(sc, mi, v)))
}

/// What `generate` returns on any input text: the parse error when the text
/// does not parse, else one declaration per variant, in table order.
pub open spec fn spec_generate(s: Seq<char>) -> Result<Seq<Seq<char>>, ErrV> {
    match parse_schema_text(s) {
        Err(e) => Err(e),
        Ok((sc, vars)) => Ok(outputs_of(sc, match_index_of(sc), vars)),
    }
}

/// Derive every variant's declaration from the input text.  Fails, with no
/// partial output, exactly when the text does not parse
/// (`MalformedSchema`) or an action name is not recognized
/// (`UnknownAction`); otherwise returns one declaration per variant, in
/// table order.
pub fn generate(input: &str) -> (r: Result<Vec<String>, DeriveError>)
    ensures
        match r {
            Ok(outs) => spec_generate(input@) == Ok::<_, ErrV>(str_views(outs@)),
            Err(e) => spec_generate(input@) == Err::<Seq<Seq<char>>, ErrV>(e@),
        },
{
    let (schema, vars) = match parse_schema(input) {
        Ok(x) => x,
        Err(e) => {
            return Err(e);
        },
    };
    let mi = build_match_index(&schema);
    let mut outs: Vec<String> = Vec::new();
    let mut i: usize = 0;
    while i < vars.len()
        invariant
            i <= vars@.len(),
            mi@ == match_index_of(schema@),
            parse_schema_text(input@) == Ok::<_, ErrV>((schema@, variant_spec_views(vars@))),
            outs@.len() == i,
            forall|k: int|
                0 <= k < i ==> str_views(outs@)[k] == render_variant_text(
                    spec_build_variant(schema@, mi@, variant_spec_views(vars@)[k]),
                ),
        decreases vars@.len() - i,
    {
        let vo = build_variant(&schema, &mi, &vars[i]);
        let txt = render_variant(&vo);
        let ghost tv = txt@;
        let ghost pre = str_views(outs@);
        outs.push(txt);
        proof {
            assert(variant_spec_views(vars@)[i as int] == vars@[i as int]@);
            assert(str_views(outs@) =~= pre.push(tv));
        }
        i += 1;
    }
    proof {
        assert(str_views(outs@) =~= outputs_of(schema@, mi@, variant_spec_views(vars@)));
    }
    Ok(outs)
}

/// Determinism: what `generate` returns is a function of the input text
/// alone — two runs over equal text yield equal declarations, byte for
/// byte, and equal errors.
pub proof fn lemma_generate_deterministic(a: Seq<char>, b: Seq<char>)
    requires
        a == b,
    ensures
        spec_generate(a) == spec_generate(b),
{
}

} // verus!
