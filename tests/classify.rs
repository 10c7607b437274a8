use ion_proc::pattern::Pat;
use ion_proc::signature::{classify, ClassifyError, FnDecl, Param, Role};
use ion_proc::ty::{GenericArg, Lifetime, Segment, Ty};
use ion_proc::wrapper::{js_fn, resolve_arguments, CallError, ReturnMode, Source, Step};

fn path(name: &str, args: Vec<GenericArg>) -> Ty {
    Ty::Path(vec![Segment { ident: name.to_string(), args }])
}

fn named(name: &str) -> Ty {
    path(name, vec![])
}

fn generic(name: &str, arg: Ty) -> Ty {
    path(name, vec![GenericArg::Type(arg)])
}

fn by_ref(elem: Ty, mutable: bool) -> Ty {
    Ty::Reference { lifetime: Some(Lifetime::Named("a".to_string())), mutable, elem: Box::new(elem) }
}

fn param(name: &str, ty: Ty) -> Param {
    Param { pat: Pat::Ident { name: name.to_string(), mutable: false }, ty }
}

fn decl(name: &str, params: Vec<Param>, output: Option<Ty>) -> FnDecl {
    FnDecl { name: name.to_string(), params, output }
}

fn greet() -> FnDecl {
    decl(
        "greet",
        vec![param("name", named("String")), param("loud", generic("Optional", named("bool")))],
        Some(named("String")),
    )
}

fn sum() -> FnDecl {
    decl("sum", vec![param("values", generic("Rest", named("i32")))], Some(named("i32")))
}

#[test]
fn greet_classifies_required_then_optional() {
    let sig = classify(&greet()).unwrap();
    assert_eq!(sig.params.len(), 2);
    assert_eq!(sig.params[0].index, 0);
    assert_eq!(sig.params[0].name, Some("name".to_string()));
    assert_eq!(sig.params[0].role, Role::Required);
    assert_eq!(sig.params[0].ty, named("String"));
    assert_eq!(sig.params[1].index, 1);
    assert_eq!(sig.params[1].name, Some("loud".to_string()));
    assert_eq!(sig.params[1].role, Role::Optional(Some(named("bool"))));
    assert!(!sig.receiver);
    assert_eq!(sig.context, None);
    assert_eq!(sig.rest, None);
    assert_eq!(sig.output, Some(named("String")));
}

#[test]
fn greet_call_with_one_argument_uses_default() {
    let plan = js_fn(&greet()).unwrap();
    assert_eq!(resolve_arguments(&plan, true, &vec![true; 1]).unwrap(), vec![Source::Argument(0), Source::Default]);
    assert_eq!(resolve_arguments(&plan, true, &vec![true; 2]).unwrap(), vec![Source::Argument(0), Source::Argument(1)]);
}

#[test]
fn greet_call_with_no_arguments_names_missing_parameter() {
    let plan = js_fn(&greet()).unwrap();
    match resolve_arguments(&plan, true, &vec![true; 0]) {
        Err(CallError::MissingRequiredArgument(name)) => assert_eq!(name, "name"),
        other => panic!("unexpected {:?}", other),
    }
}

#[test]
fn sum_classifies_as_rest_of_i32() {
    let sig = classify(&sum()).unwrap();
    assert_eq!(sig.params.len(), 1);
    assert_eq!(sig.params[0].role, Role::Rest(Some(named("i32"))));
    assert_eq!(sig.rest, Some(0));
}

#[test]
fn sum_collects_three_arguments() {
    let plan = js_fn(&sum()).unwrap();
    assert_eq!(plan.steps, vec![Step::Rest { from: 0, ty: named("i32") }]);
    assert_eq!(resolve_arguments(&plan, true, &vec![true; 3]).unwrap(), vec![Source::Collected(0, 3)]);
    assert_eq!(resolve_arguments(&plan, true, &vec![true; 0]).unwrap(), vec![Source::Collected(0, 0)]);
}

#[test]
fn tuple_pattern_is_unsupported_at_its_position() {
    let tuple = Pat::Tuple(vec![
        Pat::Ident { name: "a".to_string(), mutable: false },
        Pat::Ident { name: "b".to_string(), mutable: false },
    ]);
    let d = decl("pair", vec![param("x", named("i32")), Param { pat: tuple, ty: named("Pair") }], None);
    assert_eq!(classify(&d).err(), Some(ClassifyError::UnsupportedPattern(1)));
    assert_eq!(js_fn(&d).err(), Some(ClassifyError::UnsupportedPattern(1)));
}

#[test]
fn structured_pattern_is_fine_for_context() {
    let d = decl("f", vec![Param { pat: Pat::Wild, ty: by_ref(named("Context"), false) }], None);
    let sig = classify(&d).unwrap();
    assert_eq!(sig.params[0].role, Role::CallContext);
    assert_eq!(sig.params[0].name, None);
}

#[test]
fn rest_before_other_parameters_is_misplaced() {
    let d = decl("f", vec![param("r", generic("Rest", named("i32"))), param("x", named("i32"))], None);
    assert_eq!(classify(&d).err(), Some(ClassifyError::MisplacedRest(0)));
    let d = decl(
        "g",
        vec![
            param("a", named("u8")),
            param("r", generic("Rest", named("i32"))),
            param("x", named("i32")),
            param("y", named("i32")),
            param("z", named("i32")),
        ],
        None,
    );
    assert_eq!(classify(&d).err(), Some(ClassifyError::MisplacedRest(1)));
}

#[test]
fn two_rest_parameters_are_misplaced() {
    let d = decl("f", vec![param("r", generic("Rest", named("i32"))), param("s", generic("Rest", named("i32")))], None);
    assert_eq!(classify(&d).err(), Some(ClassifyError::MisplacedRest(0)));
}

#[test]
fn two_contexts_are_a_duplicate() {
    let d = decl(
        "f",
        vec![param("cx", by_ref(named("Context"), false)), param("x", named("i32")), param("cx2", by_ref(named("Context"), true))],
        None,
    );
    assert_eq!(classify(&d).err(), Some(ClassifyError::DuplicateContext(2)));
}

#[test]
fn duplicate_context_is_reported_before_misplaced_rest() {
    let d = decl(
        "f",
        vec![param("r", generic("Rest", named("i32"))), param("a", named("Context")), param("b", named("Context"))],
        None,
    );
    assert_eq!(classify(&d).err(), Some(ClassifyError::DuplicateContext(2)));
}

#[test]
fn receiver_context_and_values_take_positions() {
    let d = decl(
        "method",
        vec![
            param("this", by_ref(named("This"), true)),
            param("cx", by_ref(named("Context"), false)),
            param("a", named("i32")),
            param("b", generic("Optional", named("f64"))),
            param("rest", generic("Rest", named("String"))),
        ],
        Some(path("Result", vec![GenericArg::Type(named("i32")), GenericArg::Type(named("Error"))])),
    );
    let sig = classify(&d).unwrap();
    assert!(sig.receiver);
    assert_eq!(sig.context, Some(1));
    assert_eq!(sig.rest, Some(4));
    assert_eq!(sig.params[0].role, Role::Receiver);
    assert_eq!(sig.params[0].ty, Ty::Reference { lifetime: None, mutable: true, elem: Box::new(named("This")) });
    let plan = js_fn(&d).unwrap();
    assert_eq!(plan.name, "method");
    assert!(plan.receiver);
    assert_eq!(plan.steps[1], Step::Context);
    assert_eq!(plan.steps[2], Step::Required { position: 0, name: "a".to_string(), ty: named("i32") });
    assert_eq!(plan.steps[3], Step::Optional { position: 1, ty: named("f64") });
    assert_eq!(plan.steps[4], Step::Rest { from: 2, ty: named("String") });
    assert!(matches!(plan.output, ReturnMode::Fallible(_)));
    assert_eq!(
        resolve_arguments(&plan, true, &vec![true; 5]).unwrap(),
        vec![Source::Receiver, Source::Context, Source::Argument(0), Source::Argument(1), Source::Collected(2, 5)]
    );
    assert_eq!(
        resolve_arguments(&plan, true, &vec![true; 1]).unwrap(),
        vec![Source::Receiver, Source::Context, Source::Argument(0), Source::Default, Source::Collected(2, 2)]
    );
}

#[test]
fn receiver_marker_after_first_parameter_is_a_value() {
    let d = decl("f", vec![param("x", named("i32")), param("t", named("This"))], None);
    let sig = classify(&d).unwrap();
    assert!(!sig.receiver);
    assert_eq!(sig.params[1].role, Role::Required);
}

#[test]
fn plain_parameters_read_positions_in_order() {
    let d = decl("add3", vec![param("a", named("i32")), param("b", named("u8")), param("c", named("String"))], None);
    let plan = js_fn(&d).unwrap();
    assert_eq!(
        plan.steps,
        vec![
            Step::Required { position: 0, name: "a".to_string(), ty: named("i32") },
            Step::Required { position: 1, name: "b".to_string(), ty: named("u8") },
            Step::Required { position: 2, name: "c".to_string(), ty: named("String") },
        ]
    );
    assert_eq!(plan.output, ReturnMode::Unit);
    assert_eq!(
        resolve_arguments(&plan, true, &vec![true; 3]).unwrap(),
        vec![Source::Argument(0), Source::Argument(1), Source::Argument(2)]
    );
    match resolve_arguments(&plan, true, &vec![true; 2]) {
        Err(CallError::MissingRequiredArgument(name)) => assert_eq!(name, "c"),
        other => panic!("unexpected {:?}", other),
    }
}

#[test]
fn output_and_parameter_types_are_stripped() {
    let d = decl(
        "f",
        vec![param("s", by_ref(named("str"), false))],
        Some(path("Cow", vec![GenericArg::Lifetime(Lifetime::Named("a".to_string())), GenericArg::Type(named("str"))])),
    );
    let plan = js_fn(&d).unwrap();
    assert_eq!(
        plan.steps[0],
        Step::Required {
            position: 0,
            name: "s".to_string(),
            ty: Ty::Reference { lifetime: None, mutable: false, elem: Box::new(named("str")) }
        }
    );
    assert_eq!(plan.output, ReturnMode::Value(path("Cow", vec![GenericArg::Type(named("str"))])));
}

#[test]
fn optional_without_argument_converts_declared_type() {
    let d = decl("f", vec![param("o", named("Optional"))], None);
    let plan = js_fn(&d).unwrap();
    assert_eq!(plan.steps[0], Step::Optional { position: 0, ty: named("Optional") });
}

#[test]
fn receiver_that_does_not_convert_fails_first() {
    let d = decl("m", vec![param("this", by_ref(named("This"), false)), param("x", named("i32"))], None);
    let plan = js_fn(&d).unwrap();
    assert_eq!(resolve_arguments(&plan, false, &vec![]), Err(CallError::ReceiverConversionFailure));
    assert_eq!(
        resolve_arguments(&plan, true, &vec![]),
        Err(CallError::MissingRequiredArgument("x".to_string()))
    );
}

#[test]
fn argument_that_does_not_convert_names_position_and_type() {
    let plan = js_fn(&greet()).unwrap();
    assert_eq!(
        resolve_arguments(&plan, true, &vec![false]),
        Err(CallError::ArgumentConversionFailure(0, named("String")))
    );
    assert_eq!(
        resolve_arguments(&plan, true, &vec![true, false]),
        Err(CallError::ArgumentConversionFailure(1, named("bool")))
    );
}

#[test]
fn rest_element_that_does_not_convert_fails_at_its_position() {
    let plan = js_fn(&sum()).unwrap();
    assert_eq!(
        resolve_arguments(&plan, true, &vec![true, true, false, false]),
        Err(CallError::ArgumentConversionFailure(2, named("i32")))
    );
}

#[test]
fn earlier_parameter_fails_before_later_ones() {
    let d = decl("f", vec![param("a", named("u8")), param("b", named("u8"))], None);
    let plan = js_fn(&d).unwrap();
    assert_eq!(
        resolve_arguments(&plan, true, &vec![false]),
        Err(CallError::ArgumentConversionFailure(0, named("u8")))
    );
}
