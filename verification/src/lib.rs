//! `scalex` interprets relative scaling expressions such as `+50%` or `-2`
//! and classifies the argument list of a small scaling command-line tool.
//!
//! The crate has two parts, in dependency order:
//! - the scale-expression evaluator ([`expr`]): parses one token into a
//!   [`expr::ScaleOp`], a transformation from the current replica count to the
//!   target count;
//! - the argument classifier ([`argparse`]): walks the whole argument list,
//!   separating passthrough flags, the target resource, the dry-run switch and
//!   the scale expression.
//!
//! Both are pure: they do no I/O and their results are functions of their
//! inputs alone.

pub mod strutil;

pub mod digits;

pub mod expr;

pub mod flags;

pub mod argparse;
