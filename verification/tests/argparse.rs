use scalex::argparse::{usage, Parsed, ParseError};
use scalex::flags::{is_single_kube_flag, is_valued_kube_flag};

fn args(tokens: &[&str]) -> Vec<String> {
    tokens.iter().map(|t| t.to_string()).collect()
}

#[test]
fn test_flag() {
    assert!(is_single_kube_flag("--namespace=asdfs"));
    assert!(!is_single_kube_flag("--namespaceasdfs"));
}

#[test]
fn valued_flags_are_the_closed_set() {
    assert!(is_valued_kube_flag("-n"));
    assert!(is_valued_kube_flag("-c"));
    assert!(is_valued_kube_flag("--namespace"));
    assert!(is_valued_kube_flag("--warnings-as-errors"));
    assert!(!is_valued_kube_flag("--namespace=prod"));
    assert!(!is_valued_kube_flag("-x"));
    assert!(!is_valued_kube_flag("namespace"));
}

#[test]
fn scenario_deployment_percent() {
    let p = Parsed::from_args(&args(&["deployment", "mything", "+50%"])).unwrap();
    assert_eq!(p.target, "deployment/mything");
    assert_eq!(p.scale_op.apply(10), 15);
    assert!(p.kube_args.is_empty());
    assert!(!p.dry_run);
}

#[test]
fn scenario_statefulset_minus_two() {
    let p = Parsed::from_args(&args(&["statefulset", "db", "-2"])).unwrap();
    assert_eq!(p.target, "statefulset/db");
    assert_eq!(p.scale_op.apply(5), 3);
}

#[test]
fn scenario_replicas_is_constant() {
    let p = Parsed::from_args(&args(&["deployment/api", "--replicas", "7"])).unwrap();
    assert_eq!(p.target, "deployment/api");
    assert_eq!(p.scale_op.apply(3), 7);
    assert_eq!(p.scale_op.apply(0), 7);
    assert_eq!(p.scale_op.apply(2147483647), 7);
}

#[test]
fn scenario_minus_hundred_percent() {
    let p = Parsed::from_args(&args(&["deployment", "x", "-100%"])).unwrap();
    assert_eq!(p.scale_op.apply(42), 0);
}

#[test]
fn scenario_namespace_passthrough() {
    let p = Parsed::from_args(&args(&["--namespace=prod", "deployment", "x", "+1"])).unwrap();
    assert_eq!(p.kube_args, vec!["--namespace=prod".to_string()]);
    assert_eq!(p.target, "deployment/x");
    assert_eq!(p.scale_op.apply(9), 10);
}

#[test]
fn scenario_missing_target() {
    let r = Parsed::from_args(&args(&["+50%"]));
    assert_eq!(r.unwrap_err(), ParseError::MissingTarget);
}

#[test]
fn missing_target_message() {
    let e = Parsed::from_args(&args(&["+50%"])).unwrap_err();
    assert_eq!(e.message(), "missing target (deployment or statefulset)");
}

#[test]
fn missing_scale_op() {
    let e = Parsed::from_args(&args(&["deployment", "x", "hello"])).unwrap_err();
    assert_eq!(e, ParseError::MissingScaleOp);
    assert_eq!(e.message(), "scaling operation was not specified");
}

#[test]
fn passthrough_order_is_kept() {
    let p = Parsed::from_args(
        &args(&["--namespace=prod", "deployment", "x", "-n", "foo", "+1", "--context=c"]),
    ).unwrap();
    assert_eq!(
        p.kube_args,
        vec![
            "--namespace=prod".to_string(),
            "-n".to_string(),
            "foo".to_string(),
            "--context=c".to_string(),
        ],
    );
}

#[test]
fn dry_run_consumes_nothing() {
    let p = Parsed::from_args(&args(&["--dry-run", "deployment", "x", "+1"])).unwrap();
    assert!(p.dry_run);
    assert_eq!(p.target, "deployment/x");
    assert_eq!(p.scale_op.apply(1), 2);
}

#[test]
fn later_target_wins() {
    let p = Parsed::from_args(&args(&["deployment", "a", "statefulset/b", "+1"])).unwrap();
    assert_eq!(p.target, "statefulset/b");
}

#[test]
fn later_scale_op_wins() {
    let p = Parsed::from_args(&args(&["deployment/x", "+1", "-2"])).unwrap();
    assert_eq!(p.scale_op.apply(10), 8);
}

#[test]
fn garbage_token_keeps_earlier_scale_op() {
    let p = Parsed::from_args(&args(&["deployment/x", "+1", "notanexpr"])).unwrap();
    assert_eq!(p.scale_op.apply(10), 11);
}

#[test]
fn expected_name_for_deployment() {
    let e = Parsed::from_args(&args(&["deployment"])).unwrap_err();
    assert_eq!(e, ParseError::ExpectedDeploymentName);
    assert_eq!(e.message(), "expected name for deployment");
}

#[test]
fn expected_name_for_statefulset() {
    let e = Parsed::from_args(&args(&["statefulset"])).unwrap_err();
    assert_eq!(e, ParseError::ExpectedStatefulsetName);
    assert_eq!(e.message(), "expected name for statefulset");
}

#[test]
fn expected_value_for_replicas() {
    let e = Parsed::from_args(&args(&["deployment/x", "--replicas"])).unwrap_err();
    assert_eq!(e, ParseError::ExpectedReplicasValue);
    assert_eq!(e.message(), "expected value for replicas flag");
}

#[test]
fn invalid_value_for_replicas() {
    let e = Parsed::from_args(&args(&["deployment/x", "--replicas", "abc"])).unwrap_err();
    assert_eq!(e, ParseError::InvalidReplicasValue("abc".to_string()));
    assert_eq!(e.message(), "invalid value for --replicas: abc");
}

#[test]
fn replicas_overflow_is_invalid() {
    let e = Parsed::from_args(&args(&["deployment/x", "--replicas", "2147483648"])).unwrap_err();
    assert_eq!(e, ParseError::InvalidReplicasValue("2147483648".to_string()));
}

#[test]
fn replicas_accepts_signed_values() {
    let p = Parsed::from_args(&args(&["deployment/x", "--replicas", "-5"])).unwrap();
    assert_eq!(p.scale_op.apply(10), -5);
    let p = Parsed::from_args(&args(&["deployment/x", "--replicas", "+12"])).unwrap();
    assert_eq!(p.scale_op.apply(10), 12);
    let p = Parsed::from_args(&args(&["deployment/x", "--replicas", "-2147483648"])).unwrap();
    assert_eq!(p.scale_op.apply(10), -2147483648);
}

#[test]
fn expected_value_for_flag() {
    let e = Parsed::from_args(&args(&["deployment/x", "+1", "-n"])).unwrap_err();
    assert_eq!(e, ParseError::ExpectedFlagValue("-n".to_string()));
    assert_eq!(e.message(), "expected value for -n");
}

#[test]
fn help_stops_parsing() {
    let e = Parsed::from_args(&args(&["--help"])).unwrap_err();
    assert_eq!(e, ParseError::HelpRequested);
    assert!(usage().starts_with("kubectl scalex is a wrapper around kubectl scale"));
}

#[test]
fn bare_kind_slash_counts_as_target() {
    let p = Parsed::from_args(&args(&["deployment/", "+1"])).unwrap();
    assert_eq!(p.target, "deployment/");
}

#[test]
fn keyword_consumes_next_token_verbatim() {
    // The token after a bare keyword is the resource name, whatever it
    // looks like; it is not dispatched again.
    let p = Parsed::from_args(&args(&["deployment", "--dry-run", "+1"])).unwrap();
    assert_eq!(p.target, "deployment/--dry-run");
    assert!(!p.dry_run);
}

#[test]
fn valued_flag_consumes_next_token_verbatim() {
    let p = Parsed::from_args(&args(&["-n", "deployment", "deployment/x", "+1"])).unwrap();
    assert_eq!(p.kube_args, vec!["-n".to_string(), "deployment".to_string()]);
    assert_eq!(p.target, "deployment/x");
}

#[test]
fn empty_args_fail_with_missing_target() {
    let e = Parsed::from_args(&args(&[])).unwrap_err();
    assert_eq!(e, ParseError::MissingTarget);
}
