//! The closed set of passthrough flags the classifier recognizes.
//!
//! These flags mean nothing to this tool; they are collected and replayed
//! verbatim to the external scaling command. Two short flags take a separate
//! value token; the long flags are recognized both as `--flag value` (two
//! tokens) and as the single-token `--flag=value` form.

use vstd::prelude::*;

use crate::strutil::{is_strict_prefix_of, str_eq, str_has_strict_prefix};

verus! {

/// `s` is the single-token `--flag=value` form of the flag named `f`.
pub open spec fn takes_eq_value(s: Seq<char>, f: Seq<char>) -> bool {
    is_strict_prefix_of(f, s) && s[f.len() as int] == '='
}

/// `s` is the `--flag=value` form of one of the recognized long flags.
pub open spec fn is_single_kube_flag_spec(s: Seq<char>) -> bool {
    ||| takes_eq_value(s, "--as"@)
    ||| takes_eq_value(s, "--as-group"@)
    ||| takes_eq_value(s, "--cache-dir"@)
    ||| takes_eq_value(s, "--certificate-authority"@)
    ||| takes_eq_value(s, "--client-certificate"@)
    ||| takes_eq_value(s, "--client-key"@)
    ||| takes_eq_value(s, "--cluster"@)
    ||| takes_eq_value(s, "--context"@)
    ||| takes_eq_value(s, "--disable-compression"@)
    ||| takes_eq_value(s, "--insecure-skip-tls-verify"@)
    ||| takes_eq_value(s, "--kubeconfig"@)
    ||| takes_eq_value(s, "--log-flush-frequency"@)
    ||| takes_eq_value(s, "--match-server-version"@)
    ||| takes_eq_value(s, "--namespace"@)
    ||| takes_eq_value(s, "--password"@)
    ||| takes_eq_value(s, "--profile"@)
    ||| takes_eq_value(s, "--profile-output"@)
    ||| takes_eq_value(s, "--server"@)
    ||| takes_eq_value(s, "--tls-server-name"@)
    ||| takes_eq_value(s, "--token"@)
    ||| takes_eq_value(s, "--user"@)
    ||| takes_eq_value(s, "--username"@)
    ||| takes_eq_value(s, "--v"@)
    ||| takes_eq_value(s, "--vmodule"@)
    ||| takes_eq_value(s, "--warnings-as-errors"@)
}

/// `s` is exactly a recognized flag that expects its value in the following
/// token.
pub open spec fn is_valued_kube_flag_spec(s: Seq<char>) -> bool {
    ||| s == "-n"@
    ||| s == "-c"@
    ||| s == "--as"@
    ||| s == "--as-group"@
    ||| s == "--cache-dir"@
    ||| s == "--certificate-authority"@
    ||| s == "--client-certificate"@
    ||| s == "--client-key"@
    ||| s == "--cluster"@
    ||| s == "--context"@
    ||| s == "--disable-compression"@
    ||| s == "--insecure-skip-tls-verify"@
    ||| s == "--kubeconfig"@
    ||| s == "--log-flush-frequency"@
    ||| s == "--match-server-version"@
    ||| s == "--namespace"@
    ||| s == "--password"@
    ||| s == "--profile"@
    ||| s == "--profile-output"@
    ||| s == "--server"@
    ||| s == "--tls-server-name"@
    ||| s == "--token"@
    ||| s == "--user"@
    ||| s == "--username"@
    ||| s == "--v"@
    ||| s == "--vmodule"@
    ||| s == "--warnings-as-errors"@
}

/// Any token in `--flag=value` shape opens with a dash: no `kind/name`
/// target token or bare keyword has that shape.
pub proof fn lemma_single_flag_starts_dash(a: Seq<char>)
    requires
        is_single_kube_flag_spec(a),
    ensures
        a.len() > 0,
        a[0] == '-',
{
    reveal_strlit("--as");
    reveal_strlit("--as-group");
    reveal_strlit("--cache-dir");
    reveal_strlit("--certificate-authority");
    reveal_strlit("--client-certificate");
    reveal_strlit("--client-key");
    reveal_strlit("--cluster");
    reveal_strlit("--context");
    reveal_strlit("--disable-compression");
    reveal_strlit("--insecure-skip-tls-verify");
    reveal_strlit("--kubeconfig");
    reveal_strlit("--log-flush-frequency");
    reveal_strlit("--match-server-version");
    reveal_strlit("--namespace");
    reveal_strlit("--password");
    reveal_strlit("--profile");
    reveal_strlit("--profile-output");
    reveal_strlit("--server");
    reveal_strlit("--tls-server-name");
    reveal_strlit("--token");
    reveal_strlit("--user");
    reveal_strlit("--username");
    reveal_strlit("--v");
    reveal_strlit("--vmodule");
    reveal_strlit("--warnings-as-errors");
    assert forall|f: Seq<char>| takes_eq_value(a, f) && f.len() > 0 implies a[0] == f[0] by {
        assert(a.subrange(0, f.len() as int)[0] == a[0]);
    }
}

/// `s` has the `--flag=value` shape of the flag named `f`.
fn takes_eq_value_exec(s: &str, f: &str) -> (r: bool)
    ensures
        r == takes_eq_value(s@, f@),
{
    if str_has_strict_prefix(s, f) {
        let c = s.get_char(f.unicode_len());
        c == '='
    } else {
        false
    }
}

/// `s` is a recognized long flag with its value attached after `=`; such a
/// token is passed through on its own.
pub fn is_single_kube_flag(s: &str) -> (r: bool)
    ensures
        r == is_single_kube_flag_spec(s@),
{
    takes_eq_value_exec(s, "--as") || takes_eq_value_exec(s, "--as-group")
        || takes_eq_value_exec(s, "--cache-dir") || takes_eq_value_exec(
        s,
        "--certificate-authority",
    ) || takes_eq_value_exec(s, "--client-certificate") || takes_eq_value_exec(s, "--client-key")
        || takes_eq_value_exec(s, "--cluster") || takes_eq_value_exec(s, "--context")
        || takes_eq_value_exec(s, "--disable-compression") || takes_eq_value_exec(
        s,
        "--insecure-skip-tls-verify",
    ) || takes_eq_value_exec(s, "--kubeconfig") || takes_eq_value_exec(s, "--log-flush-frequency")
        || takes_eq_value_exec(s, "--match-server-version") || takes_eq_value_exec(
        s,
        "--namespace",
    ) || takes_eq_value_exec(s, "--password") || takes_eq_value_exec(s, "--profile")
        || takes_eq_value_exec(s, "--profile-output") || takes_eq_value_exec(s, "--server")
        || takes_eq_value_exec(s, "--tls-server-name") || takes_eq_value_exec(s, "--token")
        || takes_eq_value_exec(s, "--user") || takes_eq_value_exec(s, "--username")
        || takes_eq_value_exec(s, "--v") || takes_eq_value_exec(s, "--vmodule")
        || takes_eq_value_exec(s, "--warnings-as-errors")
}

/// `s` is a recognized flag whose value follows in the next token; the flag
/// and its value are passed through as two tokens.
pub fn is_valued_kube_flag(s: &str) -> (r: bool)
    ensures
        r == is_valued_kube_flag_spec(s@),
{
    str_eq(s, "-n") || str_eq(s, "-c") || str_eq(s, "--as") || str_eq(s, "--as-group") || str_eq(
        s,
        "--cache-dir",
    ) || str_eq(s, "--certificate-authority") || str_eq(s, "--client-certificate") || str_eq(
        s,
        "--client-key",
    ) || str_eq(s, "--cluster") || str_eq(s, "--context") || str_eq(s, "--disable-compression")
        || str_eq(s, "--insecure-skip-tls-verify") || str_eq(s, "--kubeconfig") || str_eq(
        s,
        "--log-flush-frequency",
    ) || str_eq(s, "--match-server-version") || str_eq(s, "--namespace") || str_eq(s, "--password")
        || str_eq(s, "--profile") || str_eq(s, "--profile-output") || str_eq(s, "--server")
        || str_eq(s, "--tls-server-name") || str_eq(s, "--token") || str_eq(s, "--user") || str_eq(
        s,
        "--username",
    ) || str_eq(s, "--v") || str_eq(s, "--vmodule") || str_eq(s, "--warnings-as-errors")
}

} // verus!
