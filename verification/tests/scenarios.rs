// Pointwise checks of the documented behaviour: pruning, upsert precedence,
// tuple duality, allow/deny exclusivity, determinism, and the edge cases of
// the grammar.
use structout::generate;
use structout::model::DeriveError;

fn run(input: &str) -> Vec<String> {
    generate(input).expect("the input should derive")
}

#[test]
fn generic_retained_by_surviving_field() {
    let out = run("<T> { foo: u32, bar: T } => { OnlyBar => [omit(foo)] }");
    assert_eq!(out, vec!["struct OnlyBar<T> { bar: T }".to_string()]);
}

#[test]
fn generic_pruned_when_unreferenced() {
    let out = run("<T> { foo: u32, bar: T } => { OnlyFoo => [omit(bar)] }");
    assert_eq!(out, vec!["struct OnlyFoo { foo: u32 }".to_string()]);
}

#[test]
fn upsert_adds_new_fields_after_base() {
    let out = run("{ foo: u32 } => { NewFields => [upsert(bar: i32, baz: i64)] }");
    assert_eq!(out, vec!["struct NewFields { foo: u32, bar: i32, baz: i64 }".to_string()]);
}

#[test]
fn upsert_overrides_base_type_in_tuple_mode() {
    let out = run("{ foo: u32 } => { Tupled => [as_tuple(), upsert(foo: u64)] }");
    assert_eq!(out, vec!["struct Tupled(u64);".to_string()]);
}

#[test]
fn constraint_dropped_with_its_generic() {
    let out = run("<T, G> where T: Sized, G: Copy { foo: T, bar: G } => { OnlyBar => [omit(foo)] }");
    assert_eq!(out, vec!["struct OnlyBar<G> where G: Copy { bar: G }".to_string()]);
}

#[test]
fn omit_ignored_when_include_present() {
    // an allow-list makes the deny-list irrelevant: foo stays although omitted
    let out = run("{ foo: u32, bar: u64 } => { A => [include(foo), omit(foo)] }");
    assert_eq!(out, vec!["struct A { foo: u32 }".to_string()]);
}

#[test]
fn tuple_toggle_keeps_survival_and_pruning() {
    let base = "<T, G> where T: Sized, G: Copy { foo: T, bar: G } => ";
    let named = run(&format!("{}{{ V => [omit(foo)] }}", base));
    let tupled = run(&format!("{}{{ V => [omit(foo), as_tuple()] }}", base));
    assert_eq!(named, vec!["struct V<G> where G: Copy { bar: G }".to_string()]);
    assert_eq!(tupled, vec!["struct V<G>(G) where G: Copy;".to_string()]);
}

#[test]
fn repeated_runs_are_byte_identical() {
    let input = "<T> where T: Copy { a: T, b: u8 } => { X => [omit(b)], Y => [as_tuple()] }";
    let first = run(input);
    let second = run(input);
    assert_eq!(first, second);
}

#[test]
fn omit_accumulates_across_repeats() {
    let out = run("{ a: u8, b: u16, c: u32 } => { X => [omit(a), omit(b)] }");
    assert_eq!(out, vec!["struct X { c: u32 }".to_string()]);
}

#[test]
fn attrs_accumulate_after_shared_ones() {
    let out = run("#[derive(Clone)] { a: u8 } => { X => [attr(#[repr(C)])] }");
    assert_eq!(out, vec!["#[derive(Clone)]\n#[repr(C)]\nstruct X { a: u8 }".to_string()]);
}

#[test]
fn emptied_variant_still_emitted() {
    let out = run("{ a: u8 } => { Nothing => [omit(a)] }");
    assert_eq!(out, vec!["struct Nothing {}".to_string()]);
}

#[test]
fn soft_noops_are_accepted() {
    // omitting and including names absent from the base schema is no error
    let out = run("{ a: u8 } => { X => [omit(zzz)], Y => [include(a, zzz)] }");
    assert_eq!(
        out,
        vec!["struct X { a: u8 }".to_string(), "struct Y { a: u8 }".to_string()]
    );
}

#[test]
fn type_with_nested_commas_is_one_field() {
    let out = run("{ map: HashMap<String, Vec<u8>>, n: u8 } => { X => [omit(n)] }");
    assert_eq!(out, vec!["struct X { map: HashMap<String, Vec<u8>> }".to_string()]);
}

#[test]
fn mention_matching_is_lexical() {
    // the generic's bound mentions `Copy`; a field whose type text holds the
    // same token activates it, scoping notwithstanding
    let out = run("<T: Copy> { a: Copy, b: u8 } => { X => [omit(b)] }");
    assert_eq!(out, vec!["struct X<T: Copy> { a: Copy }".to_string()]);
}

#[test]
fn unknown_action_is_fatal_with_name() {
    let r = generate("<> { foo: u32, bar: u64 } => { WithoutFoo => [only(bar)] }");
    assert_eq!(r, Err(DeriveError::UnknownAction("only".to_string())));
}

#[test]
fn unknown_action_aborts_whole_run() {
    // the failing variant stands second: still no partial output
    let r = generate("{ a: u8 } => { Fine => [omit(a)], Broken => [frobnicate(a)] }");
    assert_eq!(r, Err(DeriveError::UnknownAction("frobnicate".to_string())));
}

#[test]
fn unbalanced_braces_are_malformed() {
    let r = generate("{ a: u8 => { X => [] }");
    assert_eq!(r, Err(DeriveError::MalformedSchema));
}

#[test]
fn missing_arrow_is_malformed() {
    let r = generate("{ a: u8 } { X => [] }");
    assert_eq!(r, Err(DeriveError::MalformedSchema));
}

#[test]
fn field_without_type_is_malformed() {
    let r = generate("{ a: } => { X => [] }");
    assert_eq!(r, Err(DeriveError::MalformedSchema));
}

#[test]
fn as_tuple_takes_no_arguments() {
    let r = generate("{ a: u8 } => { X => [as_tuple(a)] }");
    assert_eq!(r, Err(DeriveError::MalformedSchema));
}

#[test]
fn trailing_commas_are_accepted() {
    let out = run("<T,> { a: T, } => { X => [omit(a),], }");
    assert_eq!(out, vec!["struct X {}".to_string()]);
}

#[test]
fn duplicate_base_fields_keep_first() {
    let out = run("{ a: u8, a: u16 } => { X => [] }");
    assert_eq!(out, vec!["struct X { a: u8 }".to_string()]);
}

#[test]
fn duplicate_upserts_keep_first() {
    let out = run("{ b: u8 } => { X => [upsert(f: u8), upsert(f: u16)] }");
    assert_eq!(out, vec!["struct X { b: u8, f: u8 }".to_string()]);
}

#[test]
fn trailing_text_is_malformed() {
    let r = generate("{ a: u8 } => { X => [] } leftover");
    assert_eq!(r, Err(DeriveError::MalformedSchema));
}
