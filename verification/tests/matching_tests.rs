use fpid::matching::{bytes_eq_ascii, is_all_digits, is_path_target, name_matches};

#[test]
fn test_is_all_digits_accepts_pids() {
    assert!(is_all_digits("1"));
    assert!(is_all_digits("12345"));
    assert!(is_all_digits("0"));
}

#[test]
fn test_is_all_digits_rejects_other_names() {
    assert!(!is_all_digits(""));
    assert!(!is_all_digits("self"));
    assert!(!is_all_digits("12a"));
    assert!(!is_all_digits("-1"));
    assert!(!is_all_digits("1 2"));
}

#[test]
fn test_bytes_eq_ascii_is_exact() {
    assert!(bytes_eq_ascii(b"/usr/bin/sshd", b"/usr/bin/sshd"));
    assert!(bytes_eq_ascii(b"", b""));
    assert!(!bytes_eq_ascii(b"/usr/bin/sshd", b"/usr/sbin/sshd"));
    assert!(!bytes_eq_ascii(b"sshd", b"sshd-session"));
    assert!(!bytes_eq_ascii(b"sshd", b"ssh"));
}

#[test]
fn test_path_classification() {
    // A target with a path separator selects path mode; one without
    // selects name mode.
    assert!(is_path_target("/usr/bin/sshd"));
    assert!(is_path_target("a/b"));
    assert!(is_path_target("/"));
    assert!(!is_path_target("sshd"));
    assert!(!is_path_target(""));
    assert!(!is_path_target("sshd-session"));
}

#[test]
fn test_name_matches_basename_of_first_token() {
    // A process launched as `/usr/sbin/sshd -D` has the command-line
    // record `/usr/sbin/sshd\0-D\0`; its first token's basename is `sshd`.
    let record = b"/usr/sbin/sshd\0-D\0".to_vec();
    let target = b"sshd".to_vec();
    assert!(name_matches(&record, &target));
}

#[test]
fn test_name_matches_requires_full_equality() {
    // Basenames must be fully equal, not prefix-equal.
    let record = b"sshd-session\0".to_vec();
    let target = b"sshd".to_vec();
    assert!(!name_matches(&record, &target));
}

#[test]
fn test_name_matches_bare_token_without_separator() {
    let record = b"sshd\0-D\0".to_vec();
    let target = b"sshd".to_vec();
    assert!(name_matches(&record, &target));
}

#[test]
fn test_name_matches_without_nul_terminator() {
    // A record without any NUL byte is one token.
    let record = b"/bin/busybox".to_vec();
    let target = b"busybox".to_vec();
    assert!(name_matches(&record, &target));
}

#[test]
fn test_name_does_not_match_later_tokens() {
    // Only the first token is considered.
    let record = b"/usr/bin/env\0python\0".to_vec();
    let target = b"python".to_vec();
    assert!(!name_matches(&record, &target));
}

#[test]
fn test_empty_target_does_not_match_ordinary_record() {
    let record = b"/usr/sbin/sshd\0".to_vec();
    let target = Vec::new();
    assert!(!name_matches(&record, &target));
}
