use paseo_downsizer::dryrun::{describe, interpret_dry_run, join_strings, DryRunError};
use paseo_downsizer::value::{as_seq, field, flat_u128, flat_u32, seq_len, variant_name, DynValue};

fn u(n: u128) -> DynValue {
    DynValue::Uint(n)
}
fn tuple(v: Vec<DynValue>) -> DynValue {
    DynValue::Unnamed(v)
}
fn named(v: Vec<(&str, DynValue)>) -> DynValue {
    DynValue::Named(v.into_iter().map(|(k, x)| (k.to_string(), x)).collect())
}
fn variant(name: &str, v: Vec<DynValue>) -> DynValue {
    DynValue::UnnamedVariant(name.to_string(), v)
}

#[test]
fn as_seq_lists_children_of_every_shape() {
    assert_eq!(as_seq(&tuple(vec![u(1), u(2)])).len(), 2);
    assert_eq!(seq_len(&named(vec![("a", u(1)), ("b", u(2)), ("c", u(3))])), 3);
    assert_eq!(seq_len(&variant("V", vec![u(1)])), 1);
    let nv = DynValue::NamedVariant("V".to_string(), vec![("x".to_string(), u(9))]);
    assert_eq!(flat_u128(as_seq(&nv)[0]), Some(9));
    assert_eq!(seq_len(&u(4)), 0);
    assert_eq!(seq_len(&DynValue::Other), 0);
}

#[test]
fn flat_digs_through_single_child_wrappers() {
    let wrapped = tuple(vec![named(vec![("x", variant("V", vec![u(7)]))])]);
    assert_eq!(flat_u128(&wrapped), Some(7));
    assert_eq!(flat_u128(&tuple(vec![u(1), u(2)])), None);
    assert_eq!(flat_u128(&DynValue::Other), None);
    assert_eq!(flat_u32(&u(5)), Some(5));
    assert_eq!(flat_u32(&u(1u128 << 32)), None);
    assert_eq!(flat_u32(&u(u32::MAX as u128)), Some(u32::MAX));
}

#[test]
fn variant_names_and_fields() {
    assert_eq!(variant_name(&variant("Active", vec![])), Some("Active"));
    assert_eq!(variant_name(&tuple(vec![])), None);
    let v = named(vec![("index", u(3)), ("error", u(4)), ("index", u(5))]);
    assert_eq!(field(&v, "index").and_then(flat_u128), Some(3));
    assert_eq!(field(&v, "error").and_then(flat_u128), Some(4));
    assert!(field(&v, "missing").is_none());
    assert!(field(&tuple(vec![u(1)]), "index").is_none());
}

#[test]
fn join_strings_separates_parts() {
    let parts = vec!["Err".to_string(), "Module".to_string(), "pallet#4".to_string()];
    assert_eq!(join_strings(&parts, "::"), "Err::Module::pallet#4");
    assert_eq!(join_strings(&vec!["one".to_string()], "::"), "one");
    assert_eq!(join_strings(&vec![], "::"), "");
}

fn module_error() -> DynValue {
    variant(
        "Err",
        vec![variant(
            "Module",
            vec![named(vec![("index", u(42)), ("error", tuple(vec![u(3), u(0), u(0), u(0)]))])],
        )],
    )
}

#[test]
fn describe_renders_module_errors() {
    assert_eq!(describe(&module_error()), "Err::Module::pallet#42::err=[3,0,0,0]");
}

#[test]
fn describe_follows_error_fields() {
    let with_post_info = variant(
        "Err",
        vec![named(vec![("post_info", u(0)), ("error", variant("BadOrigin", vec![]))])],
    );
    assert_eq!(describe(&with_post_info), "Err::BadOrigin");
    assert_eq!(describe(&u(3)), "unknown");
    assert_eq!(describe(&tuple(vec![tuple(vec![variant("Other", vec![])])])), "Other");
}

fn effects(exec: DynValue) -> DynValue {
    variant("Ok", vec![named(vec![("execution_result", exec), ("emitted_events", tuple(vec![]))])])
}

#[test]
fn dry_run_passes_only_when_both_results_are_ok() {
    assert!(interpret_dry_run(&effects(variant("Ok", vec![u(0)]))).is_ok());
}

#[test]
fn dry_run_dispatch_failure_is_described() {
    match interpret_dry_run(&effects(module_error())) {
        Err(DryRunError::Dispatch(s)) => assert_eq!(s, "Err::Module::pallet#42::err=[3,0,0,0]"),
        _ => panic!("expected a dispatch error"),
    }
}

#[test]
fn dry_run_malformed_answers() {
    assert!(matches!(interpret_dry_run(&variant("Ok", vec![])), Err(DryRunError::NoEffects)));
    assert!(matches!(
        interpret_dry_run(&variant("Ok", vec![named(vec![("events", u(1))])])),
        Err(DryRunError::MissingExecutionResult)
    ));
    assert!(matches!(interpret_dry_run(&effects(u(1))), Err(DryRunError::ExecutionNotResult)));
    assert!(matches!(interpret_dry_run(&u(1)), Err(DryRunError::NotResult)));
}

#[test]
fn dry_run_rejected_by_the_runtime() {
    match interpret_dry_run(&variant("Err", vec![variant("Unimplemented", vec![])])) {
        Err(DryRunError::Rejected(s)) => assert_eq!(s, "Err::Unimplemented"),
        _ => panic!("expected a rejection"),
    }
}
