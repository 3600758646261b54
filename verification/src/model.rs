//! The normalized data model: the base schema, the per-variant action lists,
//! the resolved per-variant policy, and the final per-variant output, each
//! with a mathematical view used by the contracts.
use vstd::prelude::*;

verus! {

// ---------------------------------------------------------------------------
// Views of string collections
// ---------------------------------------------------------------------------
pub open spec fn str_views(v: Seq<String>) -> Seq<Seq<char>> {
    v.map_values(|s: String| s@)
}

// ---------------------------------------------------------------------------
// Mathematical model types
// ---------------------------------------------------------------------------
/// One field of the schema or of a variant: attribute texts, name, type text.
pub struct FieldV {
    pub attrs: Seq<Seq<char>>,
    pub name: Seq<char>,
    pub ty: Seq<char>,
}

/// The base record schema.
pub struct SchemaV {
    pub attrs: Seq<Seq<char>>,
    pub vis: Option<Seq<char>>,
    pub generics: Seq<Seq<char>>,
    pub constraints: Seq<Seq<char>>,
    pub fields: Seq<FieldV>,
}

/// One action of a variant specification.
pub enum ActionV {
    Omit(Seq<Seq<char>>),
    Include(Seq<Seq<char>>),
    Attr(Seq<Seq<char>>),
    Upsert(Seq<FieldV>),
    AsTuple,
}

/// One named variant specification.
pub struct VariantSpecV {
    pub name: Seq<char>,
    pub actions: Seq<ActionV>,
}

/// The selection policy a variant's actions fold into.
pub struct PolicyV {
    pub omitted: Seq<Seq<char>>,
    pub included: Seq<Seq<char>>,
    pub upsert_names: Seq<Seq<char>>,
    pub upsert_fields: Seq<FieldV>,
    pub attributes: Seq<Seq<char>>,
    pub is_tuple: bool,
}

/// The finished model of one output declaration.
pub struct VariantOutputV {
    pub name: Seq<char>,
    pub vis: Option<Seq<char>>,
    pub attributes: Seq<Seq<char>>,
    pub fields: Seq<FieldV>,
    pub generics: Seq<Seq<char>>,
    pub constraints: Seq<Seq<char>>,
    pub is_tuple: bool,
}

/// Why a derivation run fails.
pub enum ErrV {
    Malformed,
    Unknown(Seq<char>),
}

// ---------------------------------------------------------------------------
// Executable model types
// ---------------------------------------------------------------------------
/// One field: attribute texts, name, and type text.
pub struct Field {
    pub attrs: Vec<String>,
    pub name: String,
    pub ty: String,
}

impl View for Field {
    type V = FieldV;

    open spec fn view(&self) -> FieldV {
        FieldV { attrs: str_views(self.attrs@), name: self.name@, ty: self.ty@ }
    }
}

pub open spec fn field_views(v: Seq<Field>) -> Seq<FieldV> {
    v.map_values(|f: Field| f@)
}

/// The base record schema: shared attributes, visibility, the generic
/// parameters and constraint predicates as written, and the ordered field
/// list (deduplicated by name, first occurrence kept).
pub struct Schema {
    pub attrs: Vec<String>,
    pub vis: Option<String>,
    pub generics: Vec<String>,
    pub constraints: Vec<String>,
    pub fields: Vec<Field>,
}

impl View for Schema {
    type V = SchemaV;

    open spec fn view(&self) -> SchemaV {
        SchemaV {
            attrs: str_views(self.attrs@),
            vis: match self.vis {
                Some(v) => Some(v@),
                None => None,
            },
            generics: str_views(self.generics@),
            constraints: str_views(self.constraints@),
            fields: field_views(self.fields@),
        }
    }
}

/// One action of a variant specification.
pub enum Action {
    Omit(Vec<String>),
    Include(Vec<String>),
    Attr(Vec<String>),
    Upsert(Vec<Field>),
    AsTuple,
}

impl View for Action {
    type V = ActionV;

    open spec fn view(&self) -> ActionV {
        match self {
            Action::Omit(ns) => ActionV::Omit(str_views(ns@)),
            Action::Include(ns) => ActionV::Include(str_views(ns@)),
            Action::Attr(ats) => ActionV::Attr(str_views(ats@)),
            Action::Upsert(fs) => ActionV::Upsert(field_views(fs@)),
            Action::AsTuple => ActionV::AsTuple,
        }
    }
}

pub open spec fn action_views(v: Seq<Action>) -> Seq<ActionV> {
    v.map_values(|a: Action| a@)
}

/// One named variant specification.
pub struct VariantSpec {
    pub name: String,
    pub actions: Vec<Action>,
}

impl View for VariantSpec {
    type V = VariantSpecV;

    open spec fn view(&self) -> VariantSpecV {
        VariantSpecV { name: self.name@, actions: action_views(self.actions@) }
    }
}

pub open spec fn variant_spec_views(v: Seq<VariantSpec>) -> Seq<VariantSpecV> {
    v.map_values(|vs: VariantSpec| vs@)
}

/// The selection policy a variant's actions fold into.
pub struct ResolvedPolicy {
    pub omitted: Vec<String>,
    pub included: Vec<String>,
    pub upsert_names: Vec<String>,
    pub upsert_fields: Vec<Field>,
    pub attributes: Vec<String>,
    pub is_tuple: bool,
}

impl View for ResolvedPolicy {
    type V = PolicyV;

    open spec fn view(&self) -> PolicyV {
        PolicyV {
            omitted: str_views(self.omitted@),
            included: str_views(self.included@),
            upsert_names: str_views(self.upsert_names@),
            upsert_fields: field_views(self.upsert_fields@),
            attributes: str_views(self.attributes@),
            is_tuple: self.is_tuple,
        }
    }
}

/// The finished model of one output declaration.
pub struct VariantOutput {
    pub name: String,
    pub vis: Option<String>,
    pub attributes: Vec<String>,
    pub fields: Vec<Field>,
    pub generics: Vec<String>,
    pub constraints: Vec<String>,
    pub is_tuple: bool,
}

impl View for VariantOutput {
    type V = VariantOutputV;

    open spec fn view(&self) -> VariantOutputV {
        VariantOutputV {
            name: self.name@,
            vis: match self.vis {
                Some(v) => Some(v@),
                None => None,
            },
            attributes: str_views(self.attributes@),
            fields: field_views(self.fields@),
            generics: str_views(self.generics@),
            constraints: str_views(self.constraints@),
            is_tuple: self.is_tuple,
        }
    }
}

/// Why a derivation run fails: the input does not parse, or an action name
/// is not one of the recognized actions (the name is carried along).
#[derive(Debug, PartialEq, Eq)]
pub enum DeriveError {
    MalformedSchema,
    UnknownAction(String),
}

impl View for DeriveError {
    type V = ErrV;

    open spec fn view(&self) -> ErrV {
        match self {
            DeriveError::MalformedSchema => ErrV::Malformed,
            DeriveError::UnknownAction(n) => ErrV::Unknown(n@),
        }
    }
}

// ---------------------------------------------------------------------------
// Cloning
// ---------------------------------------------------------------------------
pub fn clone_strings(v: &Vec<String>) -> (r: Vec<String>)
    ensures
        r@ == v@,
{
    let mut out: Vec<String> = Vec::new();
    let mut i: usize = 0;
    while i < v.len()
        invariant
            i <= v@.len(),
            out@ == v@.subrange(0, i as int),
        decreases v@.len() - i,
    {
        out.push(v[i].clone());
        proof {
            assert(out@ =~= v@.subrange(0, i + 1 as int));
        }
        i += 1;
    }
    proof {
        assert(out@ =~= v@);
    }
    out
}

impl Clone for Field {
    fn clone(&self) -> (r: Self)
        ensures
            r@ == self@,
    {
        Field { attrs: clone_strings(&self.attrs), name: self.name.clone(), ty: self.ty.clone() }
    }
}

// ---------------------------------------------------------------------------
// Insertion-ordered sets over sequences
// ---------------------------------------------------------------------------
/// Append `x` unless it is already present: the insertion-ordered-set insert.
pub open spec fn insert_uniq<A>(s: Seq<A>, x: A) -> Seq<A> {
    if s.contains(x) {
        s
    } else {
        s.push(x)
    }
}

/// Fold `insert_uniq` over `xs` from the left.
pub open spec fn union_uniq<A>(s: Seq<A>, xs: Seq<A>) -> Seq<A>
    decreases xs.len(),
{
    if xs.len() == 0 {
        s
    } else {
        union_uniq(insert_uniq(s, xs[0]), xs.drop_first())
    }
}

pub fn contains_string(v: &Vec<String>, x: &String) -> (r: bool)
    ensures
        r == str_views(v@).contains(x@),
{
    let mut i: usize = 0;
    while i < v.len()
        invariant
            i <= v@.len(),
            forall|k: int| 0 <= k < i ==> v@[k]@ != x@,
        decreases v@.len() - i,
    {
        if v[i].eq(x) {
            proof {
                assert(str_views(v@)[i as int] == x@);
            }
            return true;
        }
        i += 1;
    }
    proof {
        assert(forall|k: int| 0 <= k < str_views(v@).len() ==> str_views(v@)[k] != x@);
    }
    false
}

pub fn push_uniq(v: &mut Vec<String>, x: String)
    ensures
        str_views(final(v)@) == insert_uniq(str_views(old(v)@), x@),
{
    if !contains_string(v, &x) {
        let ghost before = v@;
        v.push(x);
        proof {
            assert(str_views(v@) =~= str_views(before).push(x@));
        }
    }
}

pub fn extend_uniq(v: &mut Vec<String>, xs: &Vec<String>)
    ensures
        str_views(final(v)@) == union_uniq(str_views(old(v)@), str_views(xs@)),
{
    let mut i: usize = 0;
    proof {
        assert(str_views(xs@).skip(0) =~= str_views(xs@));
    }
    while i < xs.len()
        invariant
            i <= xs@.len(),
            union_uniq(str_views(old(v)@), str_views(xs@)) == union_uniq(
                str_views(v@),
                str_views(xs@).skip(i as int),
            ),
        decreases xs@.len() - i,
    {
        let ghost pre = str_views(v@);
        let ghost rest = str_views(xs@).skip(i as int);
        push_uniq(v, xs[i].clone());
        proof {
            assert(rest[0] == str_views(xs@)[i as int]);
            assert(rest.drop_first() =~= str_views(xs@).skip(i + 1 as int));
            assert(union_uniq(pre, rest) == union_uniq(
                insert_uniq(pre, rest[0]),
                rest.drop_first(),
            ));
        }
        i += 1;
    }
    proof {
        assert(str_views(xs@).skip(xs@.len() as int) =~= Seq::<Seq<char>>::empty());
    }
}

// ---------------------------------------------------------------------------
// Field lists keyed by name
// ---------------------------------------------------------------------------
/// Whether some field of `fs` is named `n`.
pub open spec fn has_field_named(fs: Seq<FieldV>, n: Seq<char>) -> bool {
    exists|k: int| 0 <= k < fs.len() && fs[k].name == n
}

pub fn contains_field_named(v: &Vec<Field>, x: &String) -> (r: bool)
    ensures
        r == has_field_named(field_views(v@), x@),
{
    let mut i: usize = 0;
    while i < v.len()
        invariant
            i <= v@.len(),
            forall|k: int| 0 <= k < i ==> v@[k].name@ != x@,
        decreases v@.len() - i,
    {
        if v[i].name.eq(x) {
            proof {
                assert(field_views(v@)[i as int].name == x@);
            }
            return true;
        }
        i += 1;
    }
    proof {
        assert(forall|k: int| 0 <= k < field_views(v@).len() ==> field_views(v@)[k].name != x@);
    }
    false
}

/// Keep the first field of each name, in first-seen order.
pub open spec fn dedup_fields_from(fs: Seq<FieldV>, i: int, acc: Seq<FieldV>) -> Seq<FieldV>
    decreases fs.len() - i,
{
    if i < 0 || i >= fs.len() {
        acc
    } else {
        dedup_fields_from(
            fs,
            i + 1,
            if has_field_named(acc, fs[i].name) {
                acc
            } else {
                acc.push(fs[i])
            },
        )
    }
}

pub open spec fn dedup_fields(fs: Seq<FieldV>) -> Seq<FieldV> {
    dedup_fields_from(fs, 0, Seq::empty())
}

pub fn dedup_field_list(v: Vec<Field>) -> (r: Vec<Field>)
    ensures
        field_views(r@) == dedup_fields(field_views(v@)),
{
    let mut out: Vec<Field> = Vec::new();
    let mut i: usize = 0;
    proof {
        assert(field_views(out@) =~= Seq::<FieldV>::empty());
    }
    while i < v.len()
        invariant
            i <= v@.len(),
            dedup_fields(field_views(v@)) == dedup_fields_from(
                field_views(v@),
                i as int,
                field_views(out@),
            ),
        decreases v@.len() - i,
    {
        let ghost pre = field_views(out@);
        if !contains_field_named(&out, &v[i].name) {
            out.push(v[i].clone());
            proof {
                assert(field_views(out@) =~= pre.push(field_views(v@)[i as int]));
            }
        }
        proof {
            assert(field_views(v@)[i as int] == v@[i as int]@);
        }
        i += 1;
    }
    out
}

} // verus!
