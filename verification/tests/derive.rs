// End-to-end checks: each feeds one schema-and-variants text to the
// generator and compares every declaration it emits.
use structout::generate;

fn run(input: &str) -> Vec<String> {
    generate(input).expect("the input should derive")
}

#[test]
fn generics() {
    let out = run(
        "<T> {
            foo: u32,
            bar: T
          } => {
            OnlyBar => [omit(foo)],
            OnlyFoo => [omit(bar)],
          }",
    );
    assert_eq!(
        out,
        vec!["struct OnlyBar<T> { bar: T }".to_string(), "struct OnlyFoo { foo: u32 }".to_string()]
    );
}

#[test]
fn wheres() {
    let out = run(
        "<S, C> where S: Sized, C: Copy {
            foo: S,
            bar: C
          } => {
            OnlyBar => [omit(foo)],
            OnlyFoo => [omit(bar)],
          }",
    );
    assert_eq!(
        out,
        vec![
            "struct OnlyBar<C> where C: Copy { bar: C }".to_string(),
            "struct OnlyFoo<S> where S: Sized { foo: S }".to_string(),
        ]
    );
}

#[test]
fn simple() {
    let out = run(
        "<> {
            foo: u32,
            bar: u64,
            baz: String
          } => {
            WithoutFoo => [omit(foo)],
            WithoutBar => [omit(bar)],
            WithAttrs => [attr(#[object(context=Database)]), attr(#[object(config=\"latest\")])],
          }",
    );
    assert_eq!(
        out,
        vec![
            "struct WithoutFoo { bar: u64, baz: String }".to_string(),
            "struct WithoutBar { foo: u32, baz: String }".to_string(),
            "#[object(context=Database)]\n#[object(config=\"latest\")]\nstruct WithAttrs { foo: u32, bar: u64, baz: String }"
                .to_string(),
        ]
    );
}

#[test]
fn visibility() {
    let out = run(
        "pub(crate) {
            foo: u32
          } => {
            Everything => []
          }",
    );
    assert_eq!(out, vec!["pub(crate) struct Everything { foo: u32 }".to_string()]);
}

#[test]
fn include_action() {
    let out = run(
        "{
            foo: u32,
            bar: u64
          } => {
            WithoutFoo => [include(bar)],
            WithoutBar => [include(foo)],
          }",
    );
    assert_eq!(
        out,
        vec![
            "struct WithoutFoo { bar: u64 }".to_string(),
            "struct WithoutBar { foo: u32 }".to_string(),
        ]
    );
}

#[test]
fn as_tuple() {
    let out = run(
        "<S, C, O> where S: Sized, C: Copy {
            foo: S,
            bar: C,
            other: i32
          } => {
            OnlyBar => [omit(foo), as_tuple()],
            OnlyFoo => [omit(bar), as_tuple()],
          }",
    );
    assert_eq!(
        out,
        vec![
            "struct OnlyBar<C>(C, i32) where C: Copy;".to_string(),
            "struct OnlyFoo<S>(S, i32) where S: Sized;".to_string(),
        ]
    );
}

#[test]
fn upsert() {
    let out = run(
        "<> {
            foo: u32,
          } => {
            NewFields => [upsert(bar: i32, baz: i64)],
            OverriddenField => [upsert(foo: u64)],
            Tupled => [as_tuple(), upsert(foo: u64)]
          }",
    );
    assert_eq!(
        out,
        vec![
            "struct NewFields { foo: u32, bar: i32, baz: i64 }".to_string(),
            "struct OverriddenField { foo: u64 }".to_string(),
            "struct Tupled(u64);".to_string(),
        ]
    );
}

#[test]
fn shared_attrs() {
    let out = run(
        "#[derive(Debug)]
          {
            foo: u32
          } => {
            InheritsAttributes => [],
            InheritsAttributesTwo => []
          }",
    );
    assert_eq!(
        out,
        vec![
            "#[derive(Debug)]\nstruct InheritsAttributes { foo: u32 }".to_string(),
            "#[derive(Debug)]\nstruct InheritsAttributesTwo { foo: u32 }".to_string(),
        ]
    );
}
