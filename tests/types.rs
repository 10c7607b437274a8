use ion_proc::pattern::{format_pat, Pat};
use ion_proc::ty::{
    extract_type_argument, strip_lifetimes, type_ends_with, GenericArg, Lifetime, LifetimeRemover,
    Segment, Ty,
};

fn seg(name: &str, args: Vec<GenericArg>) -> Segment {
    Segment { ident: name.to_string(), args }
}

fn path(name: &str, args: Vec<GenericArg>) -> Ty {
    Ty::Path(vec![seg(name, args)])
}

fn named(name: &str) -> Ty {
    path(name, vec![])
}

fn lt(name: &str) -> GenericArg {
    GenericArg::Lifetime(Lifetime::Named(name.to_string()))
}

fn reference(lifetime: Option<Lifetime>, elem: Ty) -> Ty {
    Ty::Reference { lifetime, mutable: false, elem: Box::new(elem) }
}

#[test]
fn ends_with_last_segment_name() {
    let t = Ty::Path(vec![seg("std", vec![]), seg("Optional", vec![GenericArg::Type(named("bool"))])]);
    assert!(type_ends_with(&t, "Optional"));
    assert!(!type_ends_with(&t, "std"));
    assert!(!type_ends_with(&t, "bool"));
    assert!(!type_ends_with(&t, "Option"));
}

#[test]
fn ends_with_is_false_for_references_and_empty_paths() {
    assert!(!type_ends_with(&reference(None, named("Context")), "Context"));
    assert!(!type_ends_with(&Ty::Path(vec![]), "Context"));
    assert!(!type_ends_with(&Ty::Other("fn()".to_string()), "fn"));
}

#[test]
fn extracts_each_type_argument() {
    let t = path("HashMap", vec![GenericArg::Type(named("String")), GenericArg::Type(named("i32"))]);
    assert_eq!(extract_type_argument(&t, 0), Some(named("String")));
    assert_eq!(extract_type_argument(&t, 1), Some(named("i32")));
}

#[test]
fn extraction_out_of_range_is_none() {
    let t = path("Optional", vec![GenericArg::Type(named("bool"))]);
    assert_eq!(extract_type_argument(&t, 1), None);
    assert_eq!(extract_type_argument(&t, 1000), None);
    assert_eq!(extract_type_argument(&named("String"), 0), None);
    assert_eq!(extract_type_argument(&Ty::Path(vec![]), 0), None);
    assert_eq!(extract_type_argument(&reference(None, t), 0), None);
}

#[test]
fn extraction_skips_non_type_arguments() {
    let t = path("Cow", vec![lt("a"), GenericArg::Type(named("str")), GenericArg::Const("3".to_string())]);
    assert_eq!(extract_type_argument(&t, 0), None);
    assert_eq!(extract_type_argument(&t, 1), Some(named("str")));
    assert_eq!(extract_type_argument(&t, 2), None);
}

#[test]
fn strip_removes_named_lifetime_arguments() {
    let t = path(
        "Foo",
        vec![lt("a"), GenericArg::Type(named("T")), GenericArg::Lifetime(Lifetime::Static)],
    );
    let expected = path("Foo", vec![GenericArg::Type(named("T")), GenericArg::Lifetime(Lifetime::Static)]);
    assert_eq!(strip_lifetimes(&t), expected);
}

#[test]
fn strip_reaches_nested_positions() {
    // &'a Vec<&'b Cow<'c, str>>
    let inner = reference(
        Some(Lifetime::Named("b".to_string())),
        path("Cow", vec![lt("c"), GenericArg::Type(named("str"))]),
    );
    let t = reference(Some(Lifetime::Named("a".to_string())), path("Vec", vec![GenericArg::Type(inner)]));
    let expected = reference(
        None,
        path("Vec", vec![GenericArg::Type(reference(None, path("Cow", vec![GenericArg::Type(named("str"))])))]),
    );
    assert_eq!(strip_lifetimes(&t), expected);
}

#[test]
fn strip_keeps_static_lifetimes() {
    let t = reference(Some(Lifetime::Static), Ty::Slice(Box::new(path("Foo", vec![GenericArg::Lifetime(Lifetime::Static)]))));
    assert_eq!(strip_lifetimes(&t), t);
}

#[test]
fn strip_is_idempotent_on_example() {
    let t = reference(
        Some(Lifetime::Named("a".to_string())),
        path("Map", vec![lt("a"), GenericArg::Type(reference(Some(Lifetime::Static), named("str"))), lt("b")]),
    );
    let once = strip_lifetimes(&t);
    let twice = strip_lifetimes(&once);
    assert_eq!(once, twice);
    assert_ne!(once, t);
}

#[test]
fn remover_strips_in_place() {
    let mut t = path("Holder", vec![lt("x"), GenericArg::Type(reference(Some(Lifetime::Named("y".to_string())), named("u8")))]);
    let mut remover = LifetimeRemover;
    remover.visit_type_mut(&mut t);
    assert_eq!(t, path("Holder", vec![GenericArg::Type(reference(None, named("u8")))]));
}

#[test]
fn format_pat_gives_plain_names() {
    assert_eq!(format_pat(&Pat::Ident { name: "value".to_string(), mutable: false }), Some("value".to_string()));
    assert_eq!(format_pat(&Pat::Ident { name: "count".to_string(), mutable: true }), Some("count".to_string()));
}

#[test]
fn format_pat_rejects_structured_patterns() {
    let tuple = Pat::Tuple(vec![
        Pat::Ident { name: "a".to_string(), mutable: false },
        Pat::Ident { name: "b".to_string(), mutable: false },
    ]);
    assert_eq!(format_pat(&tuple), None);
    assert_eq!(format_pat(&Pat::Wild), None);
    assert_eq!(format_pat(&Pat::Other("Point { x, y }".to_string())), None);
}

#[test]
fn remover_strips_path_segments_in_place() {
    let mut segments = vec![
        seg("outer", vec![lt("a")]),
        seg("Inner", vec![GenericArg::Type(path("Box", vec![lt("b"), GenericArg::Type(named("u8"))])), GenericArg::Lifetime(Lifetime::Static)]),
    ];
    let mut remover = LifetimeRemover;
    remover.visit_type_path_mut(&mut segments);
    assert_eq!(
        segments,
        vec![
            seg("outer", vec![]),
            seg("Inner", vec![GenericArg::Type(path("Box", vec![GenericArg::Type(named("u8"))])), GenericArg::Lifetime(Lifetime::Static)]),
        ]
    );
}
