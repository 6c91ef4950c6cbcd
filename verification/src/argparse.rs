//! The argument classifier.
//!
//! [`Parsed::from_args`] consumes the raw argument list (excluding the
//! program name) once, left to right, with one-token lookahead for flag
//! values, and produces a [`Parsed`] record or a typed [`ParseError`].
//!
//! The whole walk is modelled by the spec function [`scan`], and
//! `from_args` is proved to return exactly what `scan` yields on the views
//! of its arguments.
//!
//! Both the target and the scale expression follow a last-write-wins
//! policy: a later target token or scale-shaped token overwrites an earlier
//! one. A token that is neither a keyword, a recognized flag, a target nor a
//! valid scale expression is silently ignored.

use vstd::prelude::*;

use crate::digits::{i32_of, is_valid_i32};
use crate::expr::{parse_op, parse_op_spec, ScaleOp};
use crate::flags::{
    is_single_kube_flag,
    is_single_kube_flag_spec,
    is_valued_kube_flag,
    is_valued_kube_flag_spec,
};
use crate::strutil::{is_prefix_of, str_eq, str_has_prefix};

verus! {

/// One classification failure, one variant per failure message.
#[derive(Debug, PartialEq, Eq)]
pub enum ParseError {
    /// `deployment` was the last token; its name is missing.
    ExpectedDeploymentName,
    /// `statefulset` was the last token; its name is missing.
    ExpectedStatefulsetName,
    /// `--replicas` was the last token; its value is missing.
    ExpectedReplicasValue,
    /// The token after `--replicas` is not an `i32`; carries that token.
    InvalidReplicasValue(String),
    /// A recognized valued flag was the last token; carries the flag.
    ExpectedFlagValue(String),
    /// `--help` was seen: not a failure of the input, but parsing stops and
    /// the usage text is the message.
    HelpRequested,
    /// No token selected a target resource.
    MissingTarget,
    /// No token installed a scale expression.
    MissingScaleOp,
}

/// Spec-level image of a [`ParseError`], with token payloads as views.
pub enum ErrKind {
    ExpectedDeploymentName,
    ExpectedStatefulsetName,
    ExpectedReplicasValue,
    InvalidReplicasValue(Seq<char>),
    ExpectedFlagValue(Seq<char>),
    HelpRequested,
    MissingTarget,
    MissingScaleOp,
}

/// The view of a [`ParseError`].
pub open spec fn err_kind(e: ParseError) -> ErrKind {
    match e {
        ParseError::ExpectedDeploymentName => ErrKind::ExpectedDeploymentName,
        ParseError::ExpectedStatefulsetName => ErrKind::ExpectedStatefulsetName,
        ParseError::ExpectedReplicasValue => ErrKind::ExpectedReplicasValue,
        ParseError::InvalidReplicasValue(v) => ErrKind::InvalidReplicasValue(v@),
        ParseError::ExpectedFlagValue(f) => ErrKind::ExpectedFlagValue(f@),
        ParseError::HelpRequested => ErrKind::HelpRequested,
        ParseError::MissingTarget => ErrKind::MissingTarget,
        ParseError::MissingScaleOp => ErrKind::MissingScaleOp,
    }
}

impl ParseError {
    /// The failure message, phrased as the tool prints it.
    pub open spec fn message_spec(self) -> Seq<char> {
        match self {
            ParseError::ExpectedDeploymentName => "expected name for deployment"@,
            ParseError::ExpectedStatefulsetName => "expected name for statefulset"@,
            ParseError::ExpectedReplicasValue => "expected value for replicas flag"@,
            ParseError::InvalidReplicasValue(v) => "invalid value for --replicas: "@ + v@,
            ParseError::ExpectedFlagValue(f) => "expected value for "@ + f@,
            ParseError::HelpRequested => "help requested"@,
            ParseError::MissingTarget => "missing target (deployment or statefulset)"@,
            ParseError::MissingScaleOp => "scaling operation was not specified"@,
        }
    }

    /// Renders the failure message.
    pub fn message(&self) -> (r: String)
        ensures
            r@ == self.message_spec(),
    {
        match self {
            ParseError::ExpectedDeploymentName => String::from_str("expected name for deployment"),
            ParseError::ExpectedStatefulsetName => String::from_str(
                "expected name for statefulset",
            ),
            ParseError::ExpectedReplicasValue => String::from_str(
                "expected value for replicas flag",
            ),
            ParseError::InvalidReplicasValue(v) => String::from_str(
                "invalid value for --replicas: ",
            ).concat(v.as_str()),
            ParseError::ExpectedFlagValue(f) => String::from_str("expected value for ").concat(
                f.as_str(),
            ),
            ParseError::HelpRequested => String::from_str("help requested"),
            ParseError::MissingTarget => String::from_str(
                "missing target (deployment or statefulset)",
            ),
            ParseError::MissingScaleOp => String::from_str("scaling operation was not specified"),
        }
    }
}

/// The multi-line usage text shown for `--help`.
pub open spec fn usage_spec() -> Seq<char> {
    "kubectl scalex is a wrapper around kubectl scale, with the added functionality of expressing how much you want\nto scale by instead of specifying a specific number.\n\nFor example, use the following to scale up by 50%:\n\n    kubectl scalex deployment/mything +50%\n\nOr the following to scale down by two replicas:\n\n    kubectl scalex deployment/mything -2\n\nAll flags, including --replicas, that work with kubectl-scale will also work with scalex. Use kubectl scale --help for more information.\n"@
}

/// Renders the usage text shown for `--help`.
pub fn usage() -> (r: String)
    ensures
        r@ == usage_spec(),
{
    String::from_str(
        "kubectl scalex is a wrapper around kubectl scale, with the added functionality of expressing how much you want\nto scale by instead of specifying a specific number.\n\nFor example, use the following to scale up by 50%:\n\n    kubectl scalex deployment/mything +50%\n\nOr the following to scale down by two replicas:\n\n    kubectl scalex deployment/mything -2\n\nAll flags, including --replicas, that work with kubectl-scale will also work with scalex. Use kubectl scale --help for more information.\n",
    )
}

/// The classifier's accumulator while walking the argument list.
pub struct ScanState {
    /// Passthrough flags collected so far, in order of appearance.
    pub kube: Seq<Seq<char>>,
    /// Whether `--dry-run` has been seen.
    pub dry: bool,
    /// The target resource (`kind/name`), or empty if none yet.
    pub target: Seq<char>,
    /// The scale expression installed last, if any.
    pub op: Option<ScaleOp>,
}

/// What classification yields: a completed record or a failure.
pub enum ScanOutcome {
    Done { kube: Seq<Seq<char>>, dry: bool, target: Seq<char>, op: ScaleOp },
    Fail { err: ErrKind },
}

/// The state before any token is read.
pub open spec fn init_state() -> ScanState {
    ScanState { kube: Seq::empty(), dry: false, target: Seq::empty(), op: None }
}

/// The views of a sequence of strings.
pub open spec fn views(args: Seq<String>) -> Seq<Seq<char>> {
    args.map_values(|s: String| s@)
}

/// The classification of `args` from position `i` onward, starting in state
/// `st`. Token dispatch, first match wins: `--dry-run`; the bare keywords
/// `deployment` / `statefulset`, which take the next token as the resource
/// name; `--replicas`, which takes the next token as an `i32`; `--help`;
/// a recognized `--flag=value` token; a recognized valued flag, which takes
/// the next token as its value; a token already of the form `kind/name`;
/// and otherwise the scale-expression evaluator, whose non-match ignores
/// the token. After the last token, a missing target fails before a missing
/// scale expression.
pub open spec fn scan(args: Seq<Seq<char>>, i: int, st: ScanState) -> ScanOutcome
    decreases args.len() - i,
{
    if i < 0 || i >= args.len() {
        if st.target.len() == 0 {
            ScanOutcome::Fail { err: ErrKind::MissingTarget }
        } else {
            match st.op {
                None => ScanOutcome::Fail { err: ErrKind::MissingScaleOp },
                Some(op) => ScanOutcome::Done {
                    kube: st.kube,
                    dry: st.dry,
                    target: st.target,
                    op,
                },
            }
        }
    } else {
        let a = args[i];
        if a == "--dry-run"@ {
            scan(args, i + 1, ScanState { dry: true, ..st })
        } else if a == "deployment"@ {
            if i + 1 < args.len() {
                scan(args, i + 2, ScanState { target: "deployment/"@ + args[i + 1], ..st })
            } else {
                ScanOutcome::Fail { err: ErrKind::ExpectedDeploymentName }
            }
        } else if a == "statefulset"@ {
            if i + 1 < args.len() {
                scan(args, i + 2, ScanState { target: "statefulset/"@ + args[i + 1], ..st })
            } else {
                ScanOutcome::Fail { err: ErrKind::ExpectedStatefulsetName }
            }
        } else if a == "--replicas"@ {
            if i + 1 < args.len() {
                if is_valid_i32(args[i + 1]) {
                    scan(
                        args,
                        i + 2,
                        ScanState { op: Some(ScaleOp::Absolute(i32_of(args[i + 1]) as i32)), ..st },
                    )
                } else {
                    ScanOutcome::Fail { err: ErrKind::InvalidReplicasValue(args[i + 1]) }
                }
            } else {
                ScanOutcome::Fail { err: ErrKind::ExpectedReplicasValue }
            }
        } else if a == "--help"@ {
            ScanOutcome::Fail { err: ErrKind::HelpRequested }
        } else if is_single_kube_flag_spec(a) {
            scan(args, i + 1, ScanState { kube: st.kube.push(a), ..st })
        } else if is_valued_kube_flag_spec(a) {
            if i + 1 < args.len() {
                scan(args, i + 2, ScanState { kube: st.kube.push(a).push(args[i + 1]), ..st })
            } else {
                ScanOutcome::Fail { err: ErrKind::ExpectedFlagValue(a) }
            }
        } else if is_prefix_of("deployment/"@, a) || is_prefix_of("statefulset/"@, a) {
            scan(args, i + 1, ScanState { target: a, ..st })
        } else {
            match parse_op_spec(a) {
                Some(op) => scan(args, i + 1, ScanState { op: Some(op), ..st }),
                None => scan(args, i + 1, st),
            }
        }
    }
}

/// The classifier's output record.
#[derive(Debug)]
pub struct Parsed {
    /// Flags to replay verbatim to the external tool, in original order.
    pub kube_args: Vec<String>,
    /// Whether the change should only be reported, not applied.
    pub dry_run: bool,
    /// How to transform the current replica count.
    pub scale_op: ScaleOp,
    /// The resource to scale, as `kind/name`.
    pub target: String,
}

/// Yields the token at `i`, or the given error when the list is exhausted.
pub fn consume_or_error(args: &Vec<String>, i: usize, err: ParseError) -> (r: Result<
    String,
    ParseError,
>)
    ensures
        i < args@.len() ==> (r matches Ok(v) && v@ == args@[i as int]@),
        i >= args@.len() ==> (r matches Err(e) && e == err),
{
    if i < args.len() {
        Ok(args[i].clone())
    } else {
        Err(err)
    }
}

impl Parsed {
    /// The parsed record is well-formed: its scale expression is.
    pub open spec fn wf(self) -> bool {
        self.scale_op.wf()
    }

    /// Classifies the argument list (excluding the program name).
    ///
    /// Returns exactly what the spec-level [`scan`] of the argument views
    /// yields: the completed record, or the first failure.
    pub fn from_args(args: &Vec<String>) -> (r: Result<Parsed, ParseError>)
        ensures
            (match r {
                Ok(p) => scan(views(args@), 0, init_state()) == (ScanOutcome::Done {
                    kube: views(p.kube_args@),
                    dry: p.dry_run,
                    target: p.target@,
                    op: p.scale_op,
                }) && p.wf(),
                Err(e) => scan(views(args@), 0, init_state()) == (ScanOutcome::Fail {
                    err: err_kind(e),
                }),
            }),
            r matches Ok(p) ==> p.target@.len() > 0,
    {
        let ghost v = views(args@);
        let mut kube_args: Vec<String> = Vec::new();
        let mut dry_run = false;
        let mut target = String::new();
        let mut scale_op: Option<ScaleOp> = None;
        let mut i: usize = 0;
        proof {
            assert(views(kube_args@) =~= Seq::<Seq<char>>::empty());
            assert((ScanState {
                kube: views(kube_args@),
                dry: dry_run,
                target: target@,
                op: scale_op,
            }) == init_state());
        }
        while i < args.len()
            invariant
                i <= args@.len(),
                v == views(args@),
                scan(v, 0, init_state()) == scan(
                    v,
                    i as int,
                    (ScanState {
                        kube: views(kube_args@),
                        dry: dry_run,
                        target: target@,
                        op: scale_op,
                    }),
                ),
                scale_op matches Some(op) ==> op.wf(),
            decreases args@.len() - i,
        {
            let ghost st = ScanState {
                kube: views(kube_args@),
                dry: dry_run,
                target: target@,
                op: scale_op,
            };
            let arg = &args[i];
            proof {
                assert(v[i as int] == args@[i as int]@);
            }
            if str_eq(arg.as_str(), "--dry-run") {
                dry_run = true;
                proof {
                    assert(scan(v, i as int, st) == scan(v, i + 1, (ScanState { dry: true, ..st })));
                }
                i += 1;
            } else if str_eq(arg.as_str(), "deployment") {
                match consume_or_error(args, i + 1, ParseError::ExpectedDeploymentName) {
                    Ok(name) => {
                        target = String::from_str("deployment/").concat(name.as_str());
                        proof {
                            assert(target@ == "deployment/"@ + v[i + 1]);
                        }
                        i += 2;
                    },
                    Err(e) => {
                        return Err(e);
                    },
                }
            } else if str_eq(arg.as_str(), "statefulset") {
                match consume_or_error(args, i + 1, ParseError::ExpectedStatefulsetName) {
                    Ok(name) => {
                        target = String::from_str("statefulset/").concat(name.as_str());
                        proof {
                            assert(target@ == "statefulset/"@ + v[i + 1]);
                        }
                        i += 2;
                    },
                    Err(e) => {
                        return Err(e);
                    },
                }
            } else if str_eq(arg.as_str(), "--replicas") {
                match consume_or_error(args, i + 1, ParseError::ExpectedReplicasValue) {
                    Ok(value) => {
                        match crate::digits::parse_i32(value.as_str()) {
                            Some(n) => {
                                scale_op = Some(ScaleOp::Absolute(n));
                                proof {
                                    assert(n == i32_of(v[i + 1]) as i32);
                                }
                                i += 2;
                            },
                            None => {
                                return Err(ParseError::InvalidReplicasValue(value));
                            },
                        }
                    },
                    Err(e) => {
                        return Err(e);
                    },
                }
            } else if str_eq(arg.as_str(), "--help") {
                return Err(ParseError::HelpRequested);
            } else if is_single_kube_flag(arg.as_str()) {
                let flag = arg.clone();
                kube_args.push(flag);
                proof {
                    assert(views(kube_args@) =~= st.kube.push(v[i as int]));
                }
                i += 1;
            } else if is_valued_kube_flag(arg.as_str()) {
                let flag = arg.clone();
                match consume_or_error(args, i + 1, ParseError::ExpectedFlagValue(flag)) {
                    Ok(value) => {
                        kube_args.push(arg.clone());
                        kube_args.push(value);
                        proof {
                            assert(views(kube_args@) =~= st.kube.push(v[i as int]).push(v[i + 1]));
                        }
                        i += 2;
                    },
                    Err(e) => {
                        return Err(e);
                    },
                }
            } else if str_has_prefix(arg.as_str(), "deployment/") || str_has_prefix(
                arg.as_str(),
                "statefulset/",
            ) {
                target = arg.clone();
                i += 1;
            } else {
                match parse_op(arg.as_str()) {
                    Some(op) => {
                        scale_op = Some(op);
                    },
                    None => {},
                }
                i += 1;
            }
        }
        if target.as_str().unicode_len() == 0 {
            return Err(ParseError::MissingTarget);
        }
        match scale_op {
            None => Err(ParseError::MissingScaleOp),
            Some(op) => Ok(
                Parsed { kube_args, dry_run, scale_op: op, target },
            ),
        }
    }
}

/// Law: classification only ever appends to the passthrough list. Whatever
/// was collected when the walk stood at `i` is a prefix of the final list,
/// unchanged and in the same order.
pub proof fn lemma_kube_args_grow(args: Seq<Seq<char>>, i: int, st: ScanState)
    ensures
        (match scan(args, i, st) {
            ScanOutcome::Done { kube, .. } => st.kube.len() <= kube.len() && kube.take(
                st.kube.len() as int,
            ) == st.kube,
            ScanOutcome::Fail { .. } => true,
        }),
    decreases args.len() - i,
{
    if i < 0 || i >= args.len() {
        if st.target.len() > 0 && st.op is Some {
            assert(st.kube.take(st.kube.len() as int) =~= st.kube);
        }
    } else {
        let a = args[i];
        if a == "--dry-run"@ {
            lemma_kube_args_grow(args, i + 1, ScanState { dry: true, ..st });
        } else if a == "deployment"@ {
            if i + 1 < args.len() {
                lemma_kube_args_grow(
                    args,
                    i + 2,
                    ScanState { target: "deployment/"@ + args[i + 1], ..st },
                );
            }
        } else if a == "statefulset"@ {
            if i + 1 < args.len() {
                lemma_kube_args_grow(
                    args,
                    i + 2,
                    ScanState { target: "statefulset/"@ + args[i + 1], ..st },
                );
            }
        } else if a == "--replicas"@ {
            if i + 1 < args.len() && is_valid_i32(args[i + 1]) {
                lemma_kube_args_grow(
                    args,
                    i + 2,
                    ScanState { op: Some(ScaleOp::Absolute(i32_of(args[i + 1]) as i32)), ..st },
                );
            }
        } else if a == "--help"@ {
        } else if is_single_kube_flag_spec(a) {
            let st2 = ScanState { kube: st.kube.push(a), ..st };
            lemma_kube_args_grow(args, i + 1, st2);
            match scan(args, i, st) {
                ScanOutcome::Done { kube, .. } => {
                    assert(kube.take(st2.kube.len() as int) == st2.kube);
                    assert(kube.take(st.kube.len() as int) =~= st.kube) by {
                        assert forall|k: int| 0 <= k < st.kube.len() implies kube.take(
                            st.kube.len() as int,
                        )[k] == st.kube[k] by {
                            assert(kube[k] == kube.take(st2.kube.len() as int)[k]);
                        }
                    }
                },
                ScanOutcome::Fail { .. } => {},
            }
        } else if is_valued_kube_flag_spec(a) {
            if i + 1 < args.len() {
                let st2 = ScanState { kube: st.kube.push(a).push(args[i + 1]), ..st };
                lemma_kube_args_grow(args, i + 2, st2);
                match scan(args, i, st) {
                    ScanOutcome::Done { kube, .. } => {
                        assert(kube.take(st2.kube.len() as int) == st2.kube);
                        assert(kube.take(st.kube.len() as int) =~= st.kube) by {
                            assert forall|k: int| 0 <= k < st.kube.len() implies kube.take(
                                st.kube.len() as int,
                            )[k] == st.kube[k] by {
                                assert(kube[k] == kube.take(st2.kube.len() as int)[k]);
                            }
                        }
                    },
                    ScanOutcome::Fail { .. } => {},
                }
            }
        } else if is_prefix_of("deployment/"@, a) || is_prefix_of("statefulset/"@, a) {
            lemma_kube_args_grow(args, i + 1, ScanState { target: a, ..st });
        } else {
            match parse_op_spec(a) {
                Some(op) => {
                    lemma_kube_args_grow(args, i + 1, ScanState { op: Some(op), ..st });
                },
                None => {
                    lemma_kube_args_grow(args, i + 1, st);
                },
            }
        }
    }
}

/// Law: a recognized passthrough token lands in the passthrough list exactly
/// where the walk stands, and a valued flag is followed immediately by its
/// value; later tokens can only be appended after them, so passthrough
/// entries are never reordered.
///
/// The keyword exclusions in the hypotheses only rule out tokens the
/// recognized flag set does not contain anyway.
pub proof fn lemma_passthrough_order(args: Seq<Seq<char>>, i: int, st: ScanState)
    requires
        0 <= i < args.len(),
        is_single_kube_flag_spec(args[i]) || is_valued_kube_flag_spec(args[i]),
        args[i] != "--dry-run"@,
        args[i] != "deployment"@,
        args[i] != "statefulset"@,
        args[i] != "--replicas"@,
        args[i] != "--help"@,
    ensures
        (match scan(args, i, st) {
            ScanOutcome::Done { kube, .. } => {
                &&& st.kube.len() < kube.len()
                &&& kube[st.kube.len() as int] == args[i]
                &&& (!is_single_kube_flag_spec(args[i]) && i + 1 < args.len()
                    ==> st.kube.len() + 1 < kube.len() && kube[st.kube.len() as int + 1] == args[i + 1])
            },
            ScanOutcome::Fail { .. } => true,
        }),
{
    let a = args[i];
    if is_single_kube_flag_spec(a) {
        let st2 = ScanState { kube: st.kube.push(a), ..st };
        lemma_kube_args_grow(args, i + 1, st2);
        match scan(args, i, st) {
            ScanOutcome::Done { kube, .. } => {
                assert(kube[st.kube.len() as int] == kube.take(st2.kube.len() as int)[st.kube.len() as int]);
            },
            ScanOutcome::Fail { .. } => {},
        }
    } else if i + 1 < args.len() {
        let st2 = ScanState { kube: st.kube.push(a).push(args[i + 1]), ..st };
        lemma_kube_args_grow(args, i + 2, st2);
        match scan(args, i, st) {
            ScanOutcome::Done { kube, .. } => {
                assert(kube[st.kube.len() as int] == kube.take(st2.kube.len() as int)[st.kube.len() as int]);
                assert(kube[st.kube.len() as int + 1] == kube.take(st2.kube.len() as int)[st.kube.len() as int + 1]);
            },
            ScanOutcome::Fail { .. } => {},
        }
    }
}

/// Law: an argument list in which no token selects a target — no bare
/// `deployment` or `statefulset` keyword and no `kind/name` token — and in
/// which no token consumes a lookahead value or stops the walk (`--replicas`,
/// `--help`, a recognized valued flag) is classified as missing its target.
///
/// The extra exclusions are needed because such tokens fail on their own
/// account: a trailing `-n`, for one, fails with its own
/// "expected value" error rather than with the missing-target error.
pub proof fn lemma_missing_target_from(args: Seq<Seq<char>>, i: int, st: ScanState)
    requires
        0 <= i <= args.len(),
        st.target.len() == 0,
        forall|k: int| 0 <= k < args.len() ==> (#[trigger] args[k]) != "deployment"@ && args[k]
            != "statefulset"@ && args[k] != "--replicas"@ && args[k] != "--help"@
            && !is_valued_kube_flag_spec(args[k]) && !is_prefix_of("deployment/"@, args[k])
            && !is_prefix_of("statefulset/"@, args[k]),
    ensures
        scan(args, i, st) == (ScanOutcome::Fail { err: ErrKind::MissingTarget }),
    decreases args.len() - i,
{
    if i < args.len() {
        let a = args[i];
        if a == "--dry-run"@ {
            lemma_missing_target_from(args, i + 1, ScanState { dry: true, ..st });
        } else if is_single_kube_flag_spec(a) {
            lemma_missing_target_from(args, i + 1, ScanState { kube: st.kube.push(a), ..st });
        } else {
            match parse_op_spec(a) {
                Some(op) => {
                    lemma_missing_target_from(args, i + 1, ScanState { op: Some(op), ..st });
                },
                None => {
                    lemma_missing_target_from(args, i + 1, st);
                },
            }
        }
    }
}

/// Law ([`lemma_missing_target_from`] started at the beginning): such an
/// argument list fails with the missing-target error.
pub proof fn lemma_missing_target(args: Seq<Seq<char>>)
    requires
        forall|k: int| 0 <= k < args.len() ==> (#[trigger] args[k]) != "deployment"@ && args[k]
            != "statefulset"@ && args[k] != "--replicas"@ && args[k] != "--help"@
            && !is_valued_kube_flag_spec(args[k]) && !is_prefix_of("deployment/"@, args[k])
            && !is_prefix_of("statefulset/"@, args[k]),
    ensures
        scan(args, 0, init_state()) == (ScanOutcome::Fail { err: ErrKind::MissingTarget }),
{
    lemma_missing_target_from(args, 0, init_state());
}

/// Law: an argument list with no scale-expression-shaped token and no
/// `--replicas` is never classified successfully, whatever else it holds.
pub proof fn lemma_no_scale_op_from(args: Seq<Seq<char>>, i: int, st: ScanState)
    requires
        0 <= i <= args.len(),
        st.op is None,
        forall|k: int| 0 <= k < args.len() ==> (#[trigger] args[k]) != "--replicas"@
            && parse_op_spec(args[k]) is None,
    ensures
        scan(args, i, st) matches ScanOutcome::Fail { .. },
    decreases args.len() - i,
{
    if i < args.len() {
        let a = args[i];
        if a == "--dry-run"@ {
            lemma_no_scale_op_from(args, i + 1, ScanState { dry: true, ..st });
        } else if a == "deployment"@ {
            if i + 1 < args.len() {
                lemma_no_scale_op_from(
                    args,
                    i + 2,
                    ScanState { target: "deployment/"@ + args[i + 1], ..st },
                );
            }
        } else if a == "statefulset"@ {
            if i + 1 < args.len() {
                lemma_no_scale_op_from(
                    args,
                    i + 2,
                    ScanState { target: "statefulset/"@ + args[i + 1], ..st },
                );
            }
        } else if a == "--help"@ {
        } else if is_single_kube_flag_spec(a) {
            lemma_no_scale_op_from(args, i + 1, ScanState { kube: st.kube.push(a), ..st });
        } else if is_valued_kube_flag_spec(a) {
            if i + 1 < args.len() {
                lemma_no_scale_op_from(
                    args,
                    i + 2,
                    ScanState { kube: st.kube.push(a).push(args[i + 1]), ..st },
                );
            }
        } else if is_prefix_of("deployment/"@, a) || is_prefix_of("statefulset/"@, a) {
            lemma_no_scale_op_from(args, i + 1, ScanState { target: a, ..st });
        } else {
            lemma_no_scale_op_from(args, i + 1, st);
        }
    }
}

/// Law ([`lemma_no_scale_op_from`] started at the beginning): with no
/// scale-shaped token and no `--replicas`, classification always fails.
pub proof fn lemma_no_scale_op(args: Seq<Seq<char>>)
    requires
        forall|k: int| 0 <= k < args.len() ==> (#[trigger] args[k]) != "--replicas"@
            && parse_op_spec(args[k]) is None,
    ensures
        scan(args, 0, init_state()) matches ScanOutcome::Fail { .. },
{
    lemma_no_scale_op_from(args, 0, init_state());
}

/// Law: with no scale-shaped token and no `--replicas`, and none of the
/// tokens that consume a lookahead value or stop the walk early, the
/// classification error is exactly missing-target or missing-scale-op — and
/// the latter as soon as a target is held.
pub proof fn lemma_missing_scale_op_from(args: Seq<Seq<char>>, i: int, st: ScanState)
    requires
        0 <= i <= args.len(),
        st.op is None,
        forall|k: int| 0 <= k < args.len() ==> (#[trigger] args[k]) != "--replicas"@ && args[k]
            != "--help"@ && parse_op_spec(args[k]) is None && !is_valued_kube_flag_spec(args[k]),
        args.len() > 0 ==> args[args.len() - 1] != "deployment"@ && args[args.len() - 1]
            != "statefulset"@,
    ensures
        (match scan(args, i, st) {
            ScanOutcome::Done { .. } => false,
            ScanOutcome::Fail { err } => err == ErrKind::MissingTarget || err
                == ErrKind::MissingScaleOp,
        }),
        st.target.len() > 0 ==> scan(args, i, st) == (ScanOutcome::Fail {
            err: ErrKind::MissingScaleOp,
        }),
    decreases args.len() - i,
{
    if i < args.len() {
        let a = args[i];
        if a == "--dry-run"@ {
            lemma_missing_scale_op_from(args, i + 1, ScanState { dry: true, ..st });
        } else if a == "deployment"@ {
            reveal_strlit("deployment/");
            lemma_missing_scale_op_from(
                args,
                i + 2,
                ScanState { target: "deployment/"@ + args[i + 1], ..st },
            );
        } else if a == "statefulset"@ {
            reveal_strlit("statefulset/");
            lemma_missing_scale_op_from(
                args,
                i + 2,
                ScanState { target: "statefulset/"@ + args[i + 1], ..st },
            );
        } else if is_single_kube_flag_spec(a) {
            lemma_missing_scale_op_from(args, i + 1, ScanState { kube: st.kube.push(a), ..st });
        } else if is_prefix_of("deployment/"@, a) || is_prefix_of("statefulset/"@, a) {
            reveal_strlit("deployment/");
            reveal_strlit("statefulset/");
            lemma_missing_scale_op_from(args, i + 1, ScanState { target: a, ..st });
        } else {
            lemma_missing_scale_op_from(args, i + 1, st);
        }
    }
}

/// Law ([`lemma_missing_scale_op_from`] started at the beginning, with the
/// target selected by a leading `kind/name` token): the error is exactly
/// "scaling operation was not specified".
pub proof fn lemma_missing_scale_op(args: Seq<Seq<char>>)
    requires
        args.len() > 0,
        is_prefix_of("deployment/"@, args[0]) || is_prefix_of("statefulset/"@, args[0]),
        forall|k: int| 0 <= k < args.len() ==> (#[trigger] args[k]) != "--replicas"@ && args[k]
            != "--help"@ && parse_op_spec(args[k]) is None && !is_valued_kube_flag_spec(args[k]),
        args[args.len() - 1] != "deployment"@ && args[args.len() - 1] != "statefulset"@,
    ensures
        scan(args, 0, init_state()) == (ScanOutcome::Fail { err: ErrKind::MissingScaleOp }),
{
    let a = args[0];
    reveal_strlit("deployment/");
    reveal_strlit("statefulset/");
    reveal_strlit("--dry-run");
    reveal_strlit("deployment");
    reveal_strlit("statefulset");
    if is_prefix_of("deployment/"@, a) {
        assert(a.subrange(0, "deployment/"@.len() as int)[0] == a[0]);
        assert(a[0] == 'd');
    } else {
        assert(a.subrange(0, "statefulset/"@.len() as int)[0] == a[0]);
        assert(a[0] == 's');
    }
    if is_single_kube_flag_spec(a) {
        crate::flags::lemma_single_flag_starts_dash(a);
    }
    assert(scan(args, 0, init_state()) == scan(args, 1, ScanState { target: a, ..init_state() }));
    lemma_missing_scale_op_from(args, 1, ScanState { target: a, ..init_state() });
}

} // verus!
