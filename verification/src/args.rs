//! The argument interpreter: turns a raw command-line vector into a
//! configuration and a target, or into a terminating outcome (help, usage
//! error, unknown option).
//!
//! Arguments after the program name are read left to right. An argument
//! that does not start with the flag prefix, or that is exactly the flag
//! prefix alone, is the positional target; at most one is accepted. Any
//! other argument is a bundle of single-character options: `q` sets quiet,
//! `s` sets single-shot, `h` terminates with the help outcome at once, and
//! anything else terminates with the unknown-option outcome.

use vstd::prelude::*;
use vstd::string::StrSliceExecFns;

verus! {

/// The configuration accumulated from the option characters.
#[derive(Clone, Copy, Debug, PartialEq, Eq, Structural)]
pub struct Flags {
    /// Suppress per-match output; the exit code alone signals the outcome.
    pub quiet: bool,
    /// Stop scanning and report success at the first match.
    pub single: bool,
}

/// What scanning the option characters of one flag argument yields: either
/// an updated configuration, or an immediately terminating outcome.
pub ghost enum FlagStep {
    Continue { quiet: bool, single: bool },
    Help,
    Unknown { opt: char },
}

/// The outcome of interpreting a whole argument vector.
pub ghost enum Outcome {
    /// A configuration and the target string, unchanged and untrimmed.
    Accepted { quiet: bool, single: bool, target: Seq<char> },
    /// A help request: terminate with code 0.
    Help,
    /// A usage error (no target, or more than one): terminate with code 1.
    Usage,
    /// An unknown option character: terminate with code 1.
    Unknown { opt: char },
}

/// Scans the option characters of one flag argument left to right,
/// accumulating `q` and `s`, stopping at `h` or at an unknown character.
pub open spec fn scan_flag_chars(cs: Seq<char>, quiet: bool, single: bool) -> FlagStep
    decreases cs.len(),
{
    if cs.len() == 0 {
        FlagStep::Continue { quiet, single }
    } else if cs[0] == 'q' {
        scan_flag_chars(cs.drop_first(), true, single)
    } else if cs[0] == 's' {
        scan_flag_chars(cs.drop_first(), quiet, true)
    } else if cs[0] == 'h' {
        FlagStep::Help
    } else {
        FlagStep::Unknown { opt: cs[0] }
    }
}

/// An argument is positional when it does not start with the flag prefix or
/// is exactly the flag prefix alone.
pub open spec fn arg_is_positional(a: Seq<char>) -> bool {
    a.len() == 0 || a[0] != '-' || a.len() == 1
}

/// Interprets the arguments from position `i` on, with the configuration
/// and the target accumulated so far.
pub open spec fn parse_from(
    args: Seq<Seq<char>>,
    i: int,
    quiet: bool,
    single: bool,
    target: Option<Seq<char>>,
) -> Outcome
    decreases args.len() - i,
{
    if i >= args.len() {
        match target {
            Some(t) => Outcome::Accepted { quiet, single, target: t },
            None => Outcome::Usage,
        }
    } else {
        let a = args[i];
        if arg_is_positional(a) {
            if target is Some {
                Outcome::Usage
            } else {
                parse_from(args, i + 1, quiet, single, Some(a))
            }
        } else {
            match scan_flag_chars(a.drop_first(), quiet, single) {
                FlagStep::Continue { quiet: q, single: s } => parse_from(args, i + 1, q, s, target),
                FlagStep::Help => Outcome::Help,
                FlagStep::Unknown { opt } => Outcome::Unknown { opt },
            }
        }
    }
}

/// The outcome of interpreting an argument vector, the program name at
/// position zero being skipped.
pub open spec fn spec_parse(args: Seq<Seq<char>>) -> Outcome {
    parse_from(args, 1, false, false, None)
}

/// The exec-level outcome of interpreting an argument vector.
pub enum ParseResult {
    /// The configuration and the target string, unchanged.
    Accepted { flags: Flags, target: String },
    /// Help was requested: the caller prints the help text and exits 0.
    Help,
    /// No target, or more than one: the caller reports usage and exits 1.
    Usage,
    /// An unknown option character: the caller reports it and exits 1.
    Unknown { opt: char },
}

impl View for ParseResult {
    type V = Outcome;

    open spec fn view(&self) -> Outcome {
        match self {
            ParseResult::Accepted { flags, target } => Outcome::Accepted {
                quiet: flags.quiet,
                single: flags.single,
                target: target@,
            },
            ParseResult::Help => Outcome::Help,
            ParseResult::Usage => Outcome::Usage,
            ParseResult::Unknown { opt } => Outcome::Unknown { opt: *opt },
        }
    }
}

/// Interprets an argument vector: accumulates `q` and `s` over the flag
/// arguments, accepts exactly one positional target, and terminates early
/// on `h` or on an unknown option character.
pub fn parse_args(argv: &Vec<String>) -> (r: ParseResult)
    ensures
        r@ == spec_parse(argv.deep_view()),
{
    let ghost args: Seq<Seq<char>> = argv.deep_view();
    let mut quiet: bool = false;
    let mut single: bool = false;
    let mut target: Option<String> = None;
    let mut i: usize = 1;
    while i < argv.len()
        invariant
            1 <= i,
            i <= argv.len() || i == 1,
            args == argv.deep_view(),
            spec_parse(args) == parse_from(args, i as int, quiet, single, target.deep_view()),
        decreases argv.len() - i,
    {
        let a: &String = &argv[i];
        proof {
            assert(args[i as int] == a@);
        }
        let n: usize = a.as_str().unicode_len();
        let positional: bool = n == 0 || a.as_str().get_char(0) != '-' || n == 1;
        if positional {
            if target.is_some() {
                proof {
                    assert(parse_from(args, i as int, quiet, single, target.deep_view())
                        == Outcome::Usage);
                }
                return ParseResult::Usage;
            }
            target = Some(a.clone());
        } else {
            let ghost q0: bool = quiet;
            let ghost s0: bool = single;
            let mut j: usize = 1;
            while j < n
                invariant
                    1 <= j <= n,
                    n == a@.len(),
                    1 <= i < argv.len(),
                    args == argv.deep_view(),
                    args[i as int] == a@,
                    !arg_is_positional(a@),
                    spec_parse(args) == parse_from(args, i as int, q0, s0, target.deep_view()),
                    scan_flag_chars(a@.skip(1), q0, s0) == scan_flag_chars(
                        a@.skip(j as int),
                        quiet,
                        single,
                    ),
                decreases n - j,
            {
                let c: char = a.as_str().get_char(j);
                proof {
                    assert(a@.skip(j as int)[0] == a@[j as int]);
                    assert(a@.skip(j as int).drop_first() =~= a@.skip(j as int + 1));
                }
                if c == 'q' {
                    quiet = true;
                } else if c == 's' {
                    single = true;
                } else if c == 'h' {
                    proof {
                        assert(scan_flag_chars(a@.skip(1), q0, s0) == FlagStep::Help);
                        assert(a@.drop_first() =~= a@.skip(1));
                    }
                    return ParseResult::Help;
                } else {
                    proof {
                        assert(scan_flag_chars(a@.skip(1), q0, s0) == (FlagStep::Unknown {
                            opt: c,
                        }));
                        assert(a@.drop_first() =~= a@.skip(1));
                    }
                    return ParseResult::Unknown { opt: c };
                }
                j = j + 1;
            }
            proof {
                assert(a@.skip(n as int) =~= Seq::<char>::empty());
                assert(scan_flag_chars(a@.skip(1), q0, s0) == (FlagStep::Continue {
                    quiet,
                    single,
                }));
                assert(a@.drop_first() =~= a@.skip(1));
            }
        }
        i = i + 1;
    }
    match target {
        Some(t) => ParseResult::Accepted { flags: Flags { quiet, single }, target: t },
        None => ParseResult::Usage,
    }
}

/// Interprets an argument vector and folds the outcome into the process
/// exit codes: help terminates with code 0, a usage error or an unknown
/// option with code 1, and an accepted vector yields the configuration and
/// the target.
pub fn parse_args_from_vec(argv: Vec<String>) -> (r: Result<(Flags, String), i32>)
    ensures
        (match spec_parse(argv.deep_view()) {
            Outcome::Accepted { quiet, single, target } => {
                &&& r matches Ok(p)
                &&& p.0.quiet == quiet
                &&& p.0.single == single
                &&& p.1@ == target
            },
            Outcome::Help => r == Err::<(Flags, String), i32>(0i32),
            Outcome::Usage => r == Err::<(Flags, String), i32>(1i32),
            Outcome::Unknown { opt: _ } => r == Err::<(Flags, String), i32>(1i32),
        }),
{
    match parse_args(&argv) {
        ParseResult::Accepted { flags, target } => Ok((flags, target)),
        ParseResult::Help => Err(0),
        ParseResult::Usage => Err(1),
        ParseResult::Unknown { opt: _ } => Err(1),
    }
}

/// Every option character of a flag argument is `q` or `s`: the bundle
/// neither requests help nor holds an unknown option.
pub open spec fn only_quiet_single_opts(a: Seq<char>) -> bool {
    forall|k: int| 1 <= k < a.len() ==> (a[k] == 'q' || a[k] == 's')
}

/// A bundle of plain `q`/`s` options never terminates the interpretation.
proof fn lemma_scan_qs_continues(cs: Seq<char>, quiet: bool, single: bool)
    requires
        forall|k: int| 0 <= k < cs.len() ==> (cs[k] == 'q' || cs[k] == 's'),
    ensures
        scan_flag_chars(cs, quiet, single) is Continue,
    decreases cs.len(),
{
    if cs.len() > 0 {
        assert(forall|k: int|
            0 <= k < cs.drop_first().len() ==> cs.drop_first()[k] == cs[k + 1]);
        if cs[0] == 'q' {
            lemma_scan_qs_continues(cs.drop_first(), true, single);
        } else {
            lemma_scan_qs_continues(cs.drop_first(), quiet, true);
        }
    }
}

/// A bundle whose first character other than `q` and `s` is `h` yields the
/// help step.
proof fn lemma_scan_reaches_help(cs: Seq<char>, h: int, quiet: bool, single: bool)
    requires
        0 <= h < cs.len(),
        cs[h] == 'h',
        forall|m: int| 0 <= m < h ==> (cs[m] == 'q' || cs[m] == 's'),
    ensures
        scan_flag_chars(cs, quiet, single) is Help,
    decreases h,
{
    if h > 0 {
        assert(forall|k: int|
            0 <= k < cs.drop_first().len() ==> cs.drop_first()[k] == cs[k + 1]);
        if cs[0] == 'q' {
            lemma_scan_reaches_help(cs.drop_first(), h - 1, true, single);
        } else {
            lemma_scan_reaches_help(cs.drop_first(), h - 1, quiet, true);
        }
    }
}

/// Law: a help option encountered before any terminating error wins.
/// Whatever configuration and target the interpretation has accumulated by
/// the time it reaches argument `i`, if that argument is a flag bundle
/// whose characters before an `h` are all plain `q`/`s` options, the
/// outcome is the help termination, which [`parse_args_from_vec`] folds to
/// exit code 0 — regardless of the arguments that follow.
pub proof fn lemma_help_short_circuits(
    args: Seq<Seq<char>>,
    i: int,
    h: int,
    quiet: bool,
    single: bool,
    target: Option<Seq<char>>,
)
    requires
        1 <= i < args.len(),
        !arg_is_positional(args[i]),
        1 <= h < args[i].len(),
        args[i][h] == 'h',
        forall|m: int| 1 <= m < h ==> (args[i][m] == 'q' || args[i][m] == 's'),
    ensures
        parse_from(args, i, quiet, single, target) == Outcome::Help,
{
    let a = args[i];
    assert(forall|k: int| 0 <= k < a.drop_first().len() ==> a.drop_first()[k] == a[k + 1]);
    lemma_scan_reaches_help(a.drop_first(), h - 1, quiet, single);
}

/// Without a positional argument ahead, and with every remaining bundle
/// made of plain `q`/`s` options, the interpretation ends in the usage
/// error.
proof fn lemma_no_positional_usage(args: Seq<Seq<char>>, i: int, quiet: bool, single: bool)
    requires
        forall|j: int|
            i <= j < args.len() ==> !arg_is_positional(args[j]) && only_quiet_single_opts(
                args[j],
            ),
    ensures
        parse_from(args, i, quiet, single, None) == Outcome::Usage,
    decreases args.len() - i,
{
    if i < args.len() {
        let a = args[i];
        assert(forall|k: int| 0 <= k < a.drop_first().len() ==> a.drop_first()[k] == a[k + 1]);
        lemma_scan_qs_continues(a.drop_first(), quiet, single);
        match scan_flag_chars(a.drop_first(), quiet, single) {
            FlagStep::Continue { quiet: q, single: s } => {
                lemma_no_positional_usage(args, i + 1, q, s);
            },
            _ => {
                assert(false);
            },
        }
    }
}

/// Law: an argument vector with zero positional arguments, whose flag
/// bundles hold only `q` and `s` options, yields the usage-error
/// termination, which [`parse_args_from_vec`] folds to exit code 1. (A
/// bundle holding `h` yields help instead, and one holding any other
/// character the unknown-option error; see
/// [`lemma_missing_target_never_accepted`] for the unconditional half.)
pub proof fn lemma_missing_target_usage_error(args: Seq<Seq<char>>)
    requires
        forall|j: int| 1 <= j < args.len() ==> !arg_is_positional(args[j]),
        forall|j: int| 1 <= j < args.len() ==> only_quiet_single_opts(args[j]),
    ensures
        spec_parse(args) == Outcome::Usage,
{
    lemma_no_positional_usage(args, 1, false, false);
}

/// Without a positional argument ahead the interpretation never accepts.
proof fn lemma_no_positional_never_accepted(
    args: Seq<Seq<char>>,
    i: int,
    quiet: bool,
    single: bool,
)
    requires
        forall|j: int| i <= j < args.len() ==> !arg_is_positional(args[j]),
    ensures
        !(parse_from(args, i, quiet, single, None) is Accepted),
    decreases args.len() - i,
{
    if i < args.len() {
        let a = args[i];
        match scan_flag_chars(a.drop_first(), quiet, single) {
            FlagStep::Continue { quiet: q, single: s } => {
                lemma_no_positional_never_accepted(args, i + 1, q, s);
            },
            FlagStep::Help => {
            },
            FlagStep::Unknown { opt: _ } => {
            },
        }
    }
}

/// Law: an argument vector with zero positional arguments is never
/// accepted: the outcome is the usage error, help, or an unknown option —
/// all of them terminations — never a configuration with a target.
pub proof fn lemma_missing_target_never_accepted(args: Seq<Seq<char>>)
    requires
        forall|j: int| 1 <= j < args.len() ==> !arg_is_positional(args[j]),
    ensures
        !(spec_parse(args) is Accepted),
{
    lemma_no_positional_never_accepted(args, 1, false, false);
}

/// Once a target is held, a further positional argument ahead — with every
/// bundle on the way made of plain `q`/`s` options — ends in the usage
/// error.
proof fn lemma_target_then_positional_usage(
    args: Seq<Seq<char>>,
    i: int,
    quiet: bool,
    single: bool,
    held: Seq<char>,
    p: int,
)
    requires
        i <= p < args.len(),
        arg_is_positional(args[p]),
        forall|j: int|
            i <= j < args.len() && !arg_is_positional(args[j]) ==> only_quiet_single_opts(
                args[j],
            ),
    ensures
        parse_from(args, i, quiet, single, Some(held)) == Outcome::Usage,
    decreases args.len() - i,
{
    let a = args[i];
    if !arg_is_positional(a) {
        assert(forall|k: int| 0 <= k < a.drop_first().len() ==> a.drop_first()[k] == a[k + 1]);
        lemma_scan_qs_continues(a.drop_first(), quiet, single);
        match scan_flag_chars(a.drop_first(), quiet, single) {
            FlagStep::Continue { quiet: q, single: s } => {
                lemma_target_then_positional_usage(args, i + 1, q, s, held, p);
            },
            _ => {
                assert(false);
            },
        }
    }
}

/// Law: an argument vector with two or more positional arguments, whose
/// flag bundles hold only `q` and `s` options, yields the usage-error
/// termination, which [`parse_args_from_vec`] folds to exit code 1. (A
/// bundle with an `h` or an unknown option character standing before the
/// second positional terminates the interpretation first.)
pub proof fn lemma_extra_target_usage_error(args: Seq<Seq<char>>, p1: int, p2: int)
    requires
        1 <= p1 < p2 < args.len(),
        arg_is_positional(args[p1]),
        arg_is_positional(args[p2]),
        forall|j: int|
            1 <= j < args.len() && !arg_is_positional(args[j]) ==> only_quiet_single_opts(
                args[j],
            ),
    ensures
        spec_parse(args) == Outcome::Usage,
{
    lemma_two_positionals_usage(args, 1, false, false, p1, p2);
}

/// Two positional arguments ahead, with every bundle on the way made of
/// plain `q`/`s` options, end in the usage error.
proof fn lemma_two_positionals_usage(
    args: Seq<Seq<char>>,
    i: int,
    quiet: bool,
    single: bool,
    p1: int,
    p2: int,
)
    requires
        i <= p1 < p2 < args.len(),
        arg_is_positional(args[p1]),
        arg_is_positional(args[p2]),
        forall|j: int|
            i <= j < args.len() && !arg_is_positional(args[j]) ==> only_quiet_single_opts(
                args[j],
            ),
    ensures
        parse_from(args, i, quiet, single, None) == Outcome::Usage,
    decreases args.len() - i,
{
    let a = args[i];
    if arg_is_positional(a) {
        lemma_target_then_positional_usage(args, i + 1, quiet, single, a, p2);
    } else {
        assert(forall|k: int| 0 <= k < a.drop_first().len() ==> a.drop_first()[k] == a[k + 1]);
        lemma_scan_qs_continues(a.drop_first(), quiet, single);
        match scan_flag_chars(a.drop_first(), quiet, single) {
            FlagStep::Continue { quiet: q, single: s } => {
                lemma_two_positionals_usage(args, i + 1, q, s, p1, p2);
            },
            _ => {
                assert(false);
            },
        }
    }
}

} // verus!
