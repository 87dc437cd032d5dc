use fpid::args::{parse_args_from_vec, Flags, ParseResult};

#[test]
fn test_help_returns_code0() {
    let argv = vec!["fpid".to_string(), "-h".to_string()];
    let res = parse_args_from_vec(argv);
    assert!(matches!(res, Err(0)));
}

#[test]
fn test_missing_target() {
    let argv = vec!["fpid".to_string()];
    let res = parse_args_from_vec(argv);
    assert!(matches!(res, Err(1)));
}

#[test]
fn test_parse_flags_and_target() {
    let argv = vec!["fpid".to_string(), "-qs".to_string(), "sshd".to_string()];
    let (flags, target) = parse_args_from_vec(argv).unwrap();
    assert_eq!(
        flags,
        Flags {
            quiet: true,
            single: true
        }
    );
    assert_eq!(target, "sshd");
}

#[test]
fn test_unknown_option() {
    let argv = vec!["fpid".to_string(), "-x".to_string()];
    let res = parse_args_from_vec(argv);
    assert!(matches!(res, Err(1)));
}

#[test]
fn test_extra_positional_error() {
    let argv = vec![
        "fpid".to_string(),
        "-q".to_string(),
        "sshd".to_string(),
        "extra".to_string(),
    ];
    let res = parse_args_from_vec(argv);
    assert!(matches!(res, Err(1)));
}

#[test]
fn test_help_wins_over_later_arguments() {
    // The help option terminates at once, before any later error could.
    let argv = vec![
        "fpid".to_string(),
        "-qh".to_string(),
        "one".to_string(),
        "two".to_string(),
    ];
    assert!(matches!(parse_args_from_vec(argv), Err(0)));
}

#[test]
fn test_unknown_option_before_help() {
    // Within one bundle the characters are read left to right: `x` comes
    // before `h`, so the outcome is the unknown-option error.
    let argv = vec!["fpid".to_string(), "-xh".to_string(), "sshd".to_string()];
    assert!(matches!(parse_args_from_vec(argv), Err(1)));
}

#[test]
fn test_separate_flags_accumulate() {
    let argv = vec![
        "fpid".to_string(),
        "-q".to_string(),
        "sshd".to_string(),
        "-s".to_string(),
    ];
    let (flags, target) = parse_args_from_vec(argv).unwrap();
    assert_eq!(
        flags,
        Flags {
            quiet: true,
            single: true
        }
    );
    assert_eq!(target, "sshd");
}

#[test]
fn test_lone_dash_is_a_target() {
    // An argument that is exactly the flag prefix is positional.
    let argv = vec!["fpid".to_string(), "-".to_string()];
    let (flags, target) = parse_args_from_vec(argv).unwrap();
    assert_eq!(
        flags,
        Flags {
            quiet: false,
            single: false
        }
    );
    assert_eq!(target, "-");
}

#[test]
fn test_empty_target_is_accepted() {
    // The parser does not reject an empty target; it simply never matches.
    let argv = vec!["fpid".to_string(), String::new()];
    let (_, target) = parse_args_from_vec(argv).unwrap();
    assert_eq!(target, "");
}

#[test]
fn test_parse_result_reports_unknown_character() {
    let argv = vec!["fpid".to_string(), "-z".to_string()];
    match fpid::args::parse_args(&argv) {
        ParseResult::Unknown { opt } => assert_eq!(opt, 'z'),
        _ => panic!("expected the unknown-option outcome"),
    }
}
