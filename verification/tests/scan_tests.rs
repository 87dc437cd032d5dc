use fpid::args::Flags;
use fpid::scan::{entry_matches, scan_table, ProcEntry};

fn exe_entry(pid: &str, exe: &[u8]) -> ProcEntry {
    ProcEntry {
        pid: pid.to_string(),
        exe: Some(exe.to_vec()),
        cmdline: None,
    }
}

fn cmd_entry(pid: &str, cmdline: &[u8]) -> ProcEntry {
    ProcEntry {
        pid: pid.to_string(),
        exe: None,
        cmdline: Some(cmdline.to_vec()),
    }
}

const PLAIN: Flags = Flags {
    quiet: false,
    single: false,
};

#[test]
fn test_path_mode_matches_exact_link_target() {
    // The target `/usr/bin/sshd` matches only a process whose link
    // resolves to exactly that string.
    let entries = vec![
        exe_entry("100", b"/usr/sbin/sshd"),
        exe_entry("200", b"/usr/bin/sshd"),
    ];
    let target = b"/usr/bin/sshd".to_vec();
    let report = scan_table(&entries, true, &target, PLAIN);
    assert!(report.found);
    assert_eq!(report.exit_code(), 0);
    assert_eq!(report.printed, vec!["200".to_string()]);
}

#[test]
fn test_name_mode_matches_basename_of_first_token() {
    let entries = vec![
        cmd_entry("31", b"/usr/sbin/sshd\0-D\0"),
        cmd_entry("32", b"sshd-session\0"),
        cmd_entry("33", b"sshd\0"),
    ];
    let target = b"sshd".to_vec();
    let report = scan_table(&entries, false, &target, PLAIN);
    assert!(report.found);
    assert_eq!(report.printed, vec!["31".to_string(), "33".to_string()]);
}

#[test]
fn test_quiet_single_shot_match_yields_code0_and_no_output() {
    let entries = vec![exe_entry("7", b"/usr/bin/sshd")];
    let target = b"/usr/bin/sshd".to_vec();
    let flags = Flags {
        quiet: true,
        single: true,
    };
    let report = scan_table(&entries, true, &target, flags);
    assert_eq!(report.exit_code(), 0);
    assert!(report.printed.is_empty());
}

#[test]
fn test_no_match_yields_code1_and_no_output() {
    let entries = vec![
        exe_entry("100", b"/usr/sbin/sshd"),
        cmd_entry("200", b"bash\0"),
    ];
    let target = b"/usr/bin/sshd".to_vec();
    for quiet in [false, true] {
        for single in [false, true] {
            let report = scan_table(&entries, true, &target, Flags { quiet, single });
            assert_eq!(report.exit_code(), 1);
            assert!(report.printed.is_empty());
        }
    }
}

#[test]
fn test_single_shot_stops_at_first_match() {
    // With several matches, single-shot reports exactly the first one in
    // enumeration order and stops there.
    let entries = vec![
        cmd_entry("1", b"bash\0"),
        cmd_entry("2", b"sshd\0"),
        cmd_entry("3", b"sshd\0"),
    ];
    let target = b"sshd".to_vec();
    let flags = Flags {
        quiet: false,
        single: true,
    };
    let report = scan_table(&entries, false, &target, flags);
    assert!(report.found);
    assert_eq!(report.printed, vec!["2".to_string()]);
}

#[test]
fn test_quiet_suppresses_output_but_keeps_exit_code() {
    let entries = vec![cmd_entry("5", b"sshd\0"), cmd_entry("6", b"sshd\0")];
    let target = b"sshd".to_vec();
    let flags = Flags {
        quiet: true,
        single: false,
    };
    let report = scan_table(&entries, false, &target, flags);
    assert!(report.found);
    assert_eq!(report.exit_code(), 0);
    assert!(report.printed.is_empty());
}

#[test]
fn test_scan_twice_yields_identical_results() {
    // An unchanged table scanned twice yields identical match sets and
    // ordering.
    let entries = vec![
        cmd_entry("10", b"sshd\0"),
        cmd_entry("11", b"bash\0"),
        cmd_entry("12", b"/usr/sbin/sshd\0-D\0"),
    ];
    let target = b"sshd".to_vec();
    let first = scan_table(&entries, false, &target, PLAIN);
    let second = scan_table(&entries, false, &target, PLAIN);
    assert_eq!(first.found, second.found);
    assert_eq!(first.printed, second.printed);
    assert_eq!(first.printed, vec!["10".to_string(), "12".to_string()]);
}

#[test]
fn test_non_digit_entries_never_match() {
    // Only directory entries named by decimal digits denote processes.
    let entries = vec![
        exe_entry("self", b"/usr/bin/sshd"),
        exe_entry("", b"/usr/bin/sshd"),
    ];
    let target = b"/usr/bin/sshd".to_vec();
    let report = scan_table(&entries, true, &target, PLAIN);
    assert_eq!(report.exit_code(), 1);
    assert!(report.printed.is_empty());
}

#[test]
fn test_unreadable_fields_are_non_matches() {
    // A failed link resolution or command-line read only skips the entry.
    let no_exe = ProcEntry {
        pid: "44".to_string(),
        exe: None,
        cmdline: None,
    };
    let target = b"/usr/bin/sshd".to_vec();
    assert!(!entry_matches(&no_exe, true, &target));
    assert!(!entry_matches(&no_exe, false, &target));
}

#[test]
fn test_empty_cmdline_record_never_matches() {
    let entries = vec![cmd_entry("9", b"")];
    let empty_target = Vec::new();
    let report = scan_table(&entries, false, &empty_target, PLAIN);
    assert_eq!(report.exit_code(), 1);
}
