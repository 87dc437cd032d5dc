//! The matcher and reporter: consumes a snapshot of the process table, one
//! entry per candidate process, applies the matching rule selected by the
//! target's shape, and reports the identifiers of the matching processes
//! according to the configuration.

use crate::args::Flags;
use crate::matching::{
    bytes_eq_ascii, is_all_digits, name_matches, spec_all_digits, spec_name_matches,
};
use vstd::prelude::*;

verus! {

/// One entry of a process-table snapshot. The identifier is the raw
/// directory-entry name; either per-process field is `None` when the
/// corresponding read failed, which makes the entry a non-match for the
/// rule that needs it.
pub struct ProcEntry {
    /// The directory-entry name; only names made of decimal digits denote
    /// processes.
    pub pid: String,
    /// The resolved target of the entry's active-executable link, as raw
    /// bytes, or `None` when resolution failed.
    pub exe: Option<Vec<u8>>,
    /// The raw bytes of the entry's command-line record, or `None` when the
    /// read failed.
    pub cmdline: Option<Vec<u8>>,
}

/// Whether a snapshot entry matches the target under the selected rule: the
/// entry must be named by a process identifier, and in path mode its
/// active-executable link target must equal the target byte for byte, while
/// in name mode the basename of the first NUL-delimited token of its
/// non-empty command-line record must equal the target byte for byte.
pub open spec fn spec_is_match(e: ProcEntry, path_mode: bool, target: Seq<u8>) -> bool {
    &&& spec_all_digits(e.pid@)
    &&& if path_mode {
        e.exe matches Some(x) && x@ == target
    } else {
        e.cmdline matches Some(c) && c@.len() > 0 && spec_name_matches(c@, target)
    }
}

/// Whether at least one entry of a snapshot matches the target.
pub open spec fn spec_found(entries: Seq<ProcEntry>, path_mode: bool, target: Seq<u8>) -> bool {
    exists|k: int| 0 <= k < entries.len() && spec_is_match(entries[k], path_mode, target)
}

/// The identifiers reported for a snapshot, in enumeration order: one per
/// matching entry, none when quiet is set, and only the first match's when
/// single-shot is set.
pub open spec fn spec_printed(
    entries: Seq<ProcEntry>,
    path_mode: bool,
    target: Seq<u8>,
    quiet: bool,
    single: bool,
) -> Seq<Seq<char>>
    decreases entries.len(),
{
    if entries.len() == 0 {
        Seq::<Seq<char>>::empty()
    } else {
        let e = entries[0];
        let rest = spec_printed(entries.drop_first(), path_mode, target, quiet, single);
        if spec_is_match(e, path_mode, target) {
            let head: Seq<Seq<char>> = if quiet {
                Seq::<Seq<char>>::empty()
            } else {
                seq![e.pid@]
            };
            if single {
                head
            } else {
                head + rest
            }
        } else {
            rest
        }
    }
}

/// The identifiers of all matching entries of a snapshot, in enumeration
/// order, with no configuration applied: the match set together with its
/// ordering.
pub open spec fn spec_match_pids(
    entries: Seq<ProcEntry>,
    path_mode: bool,
    target: Seq<u8>,
) -> Seq<Seq<char>>
    decreases entries.len(),
{
    if entries.len() == 0 {
        Seq::<Seq<char>>::empty()
    } else {
        let rest = spec_match_pids(entries.drop_first(), path_mode, target);
        if spec_is_match(entries[0], path_mode, target) {
            seq![entries[0].pid@] + rest
        } else {
            rest
        }
    }
}

/// Decides whether one snapshot entry matches the target under the
/// selected rule.
pub fn entry_matches(e: &ProcEntry, path_mode: bool, target: &Vec<u8>) -> (r: bool)
    ensures
        r == spec_is_match(*e, path_mode, target@),
{
    if !is_all_digits(e.pid.as_str()) {
        return false;
    }
    if path_mode {
        match &e.exe {
            Some(x) => bytes_eq_ascii(x.as_slice(), target.as_slice()),
            None => false,
        }
    } else {
        match &e.cmdline {
            Some(c) => c.len() > 0 && name_matches(c, target),
            None => false,
        }
    }
}

/// Appending one entry to a snapshot either appends its match or changes
/// nothing.
proof fn lemma_found_snoc(s: Seq<ProcEntry>, e: ProcEntry, path_mode: bool, target: Seq<u8>)
    ensures
        spec_found(s.push(e), path_mode, target) == (spec_found(s, path_mode, target)
            || spec_is_match(e, path_mode, target)),
{
    if spec_found(s.push(e), path_mode, target) {
        let j = choose|j: int|
            0 <= j < s.push(e).len() && spec_is_match(s.push(e)[j], path_mode, target);
        if j < s.len() {
            assert(s.push(e)[j] == s[j]);
        } else {
            assert(s.push(e)[j] == e);
        }
    }
    if spec_found(s, path_mode, target) {
        let j = choose|j: int| 0 <= j < s.len() && spec_is_match(s[j], path_mode, target);
        assert(s.push(e)[j] == s[j]);
    }
    if spec_is_match(e, path_mode, target) {
        assert(s.push(e)[s.len() as int] == e);
    }
}

/// Appending one entry to a snapshot appends its reported identifier, as
/// long as single-shot has not already stopped the report within the
/// snapshot.
proof fn lemma_printed_snoc(
    s: Seq<ProcEntry>,
    e: ProcEntry,
    path_mode: bool,
    target: Seq<u8>,
    quiet: bool,
    single: bool,
)
    requires
        single ==> !spec_found(s, path_mode, target),
    ensures
        spec_printed(s.push(e), path_mode, target, quiet, single) == spec_printed(
            s,
            path_mode,
            target,
            quiet,
            single,
        ) + (if spec_is_match(e, path_mode, target) && !quiet {
            seq![e.pid@]
        } else {
            Seq::<Seq<char>>::empty()
        }),
    decreases s.len(),
{
    let appended: Seq<Seq<char>> = if spec_is_match(e, path_mode, target) && !quiet {
        seq![e.pid@]
    } else {
        Seq::<Seq<char>>::empty()
    };
    if s.len() == 0 {
        assert(s.push(e)[0] == e);
        assert(s.push(e).drop_first() =~= Seq::<ProcEntry>::empty());
        assert(spec_printed(Seq::<ProcEntry>::empty(), path_mode, target, quiet, single)
            == Seq::<Seq<char>>::empty());
        assert(Seq::<Seq<char>>::empty() + appended =~= appended);
        if spec_is_match(e, path_mode, target) && !quiet {
            assert(seq![e.pid@] + Seq::<Seq<char>>::empty() =~= seq![e.pid@]);
        }
        assert(spec_printed(s, path_mode, target, quiet, single) + appended =~= spec_printed(
            s.push(e),
            path_mode,
            target,
            quiet,
            single,
        ));
    } else {
        assert(s.push(e)[0] == s[0]);
        assert(s.push(e).drop_first() =~= s.drop_first().push(e));
        if single && spec_is_match(s[0], path_mode, target) {
            assert(spec_found(s, path_mode, target));
        }
        if single {
            if spec_found(s.drop_first(), path_mode, target) {
                let j = choose|j: int|
                    0 <= j < s.drop_first().len() && spec_is_match(
                        s.drop_first()[j],
                        path_mode,
                        target,
                    );
                assert(s[j + 1] == s.drop_first()[j]);
            }
        }
        lemma_printed_snoc(s.drop_first(), e, path_mode, target, quiet, single);
        if spec_is_match(s[0], path_mode, target) {
            let head: Seq<Seq<char>> = if quiet {
                Seq::<Seq<char>>::empty()
            } else {
                seq![s[0].pid@]
            };
            assert(head + (spec_printed(s.drop_first(), path_mode, target, quiet, single)
                + appended) =~= (head + spec_printed(
                s.drop_first(),
                path_mode,
                target,
                quiet,
                single,
            )) + appended);
        }
    }
}

/// Law: a snapshot without a matching entry is reported with no output
/// lines at all, whatever the configuration; together with the scan's
/// contract this means such a run exits with code 1 and prints nothing.
pub proof fn lemma_no_match_no_output(
    entries: Seq<ProcEntry>,
    path_mode: bool,
    target: Seq<u8>,
    quiet: bool,
    single: bool,
)
    requires
        !spec_found(entries, path_mode, target),
    ensures
        spec_printed(entries, path_mode, target, quiet, single) == Seq::<Seq<char>>::empty(),
    decreases entries.len(),
{
    if entries.len() > 0 {
        assert(!spec_is_match(entries[0], path_mode, target));
        if spec_found(entries.drop_first(), path_mode, target) {
            let j = choose|j: int|
                0 <= j < entries.drop_first().len() && spec_is_match(
                    entries.drop_first()[j],
                    path_mode,
                    target,
                );
            assert(entries[j + 1] == entries.drop_first()[j]);
        }
        lemma_no_match_no_output(entries.drop_first(), path_mode, target, quiet, single);
    }
}

/// Law: the scan is a pure function of the snapshot, the mode, the target
/// and the configuration, so scanning an unchanged process table twice
/// yields identical match sets and identical output order.
pub proof fn lemma_scan_deterministic(
    first: Seq<ProcEntry>,
    second: Seq<ProcEntry>,
    path_mode: bool,
    target: Seq<u8>,
    quiet: bool,
    single: bool,
)
    requires
        first == second,
    ensures
        spec_found(first, path_mode, target) == spec_found(second, path_mode, target),
        spec_printed(first, path_mode, target, quiet, single) == spec_printed(
            second,
            path_mode,
            target,
            quiet,
            single,
        ),
{
}

/// Law: with single-shot set and a match present, the report stops at the
/// first match in enumeration order: entries after it appendedute nothing,
/// and the output is exactly that match's identifier, or nothing when quiet
/// is also set.
pub proof fn lemma_single_shot_stops(
    entries: Seq<ProcEntry>,
    path_mode: bool,
    target: Seq<u8>,
    quiet: bool,
    k: int,
)
    requires
        0 <= k < entries.len(),
        spec_is_match(entries[k], path_mode, target),
        forall|j: int| 0 <= j < k ==> !spec_is_match(entries[j], path_mode, target),
    ensures
        spec_printed(entries, path_mode, target, quiet, true) == spec_printed(
            entries.take(k + 1),
            path_mode,
            target,
            quiet,
            true,
        ),
        spec_printed(entries, path_mode, target, quiet, true) == (if quiet {
            Seq::<Seq<char>>::empty()
        } else {
            seq![entries[k].pid@]
        }),
    decreases k,
{
    if k == 0 {
        assert(entries.take(1)[0] == entries[0]);
        if quiet {
            assert(spec_printed(entries.take(1), path_mode, target, quiet, true)
                =~= Seq::<Seq<char>>::empty());
        }
    } else {
        assert(!spec_is_match(entries[0], path_mode, target));
        assert(entries.drop_first()[k - 1] == entries[k]);
        assert(forall|j: int|
            0 <= j < k - 1 ==> entries.drop_first()[j] == entries[j + 1]
                && !spec_is_match(entries.drop_first()[j], path_mode, target));
        lemma_single_shot_stops(entries.drop_first(), path_mode, target, quiet, k - 1);
        assert(entries.take(k + 1)[0] == entries[0]);
        assert(entries.take(k + 1).drop_first() =~= entries.drop_first().take(k));
    }
}

/// Law: with quiet set, no identifier at all is reported, whatever the
/// snapshot, the mode or the single-shot flag; whether a match was found
/// does not mention the quiet flag at all, so the exit code still reflects
/// match or no match.
pub proof fn lemma_quiet_silent(
    entries: Seq<ProcEntry>,
    path_mode: bool,
    target: Seq<u8>,
    single: bool,
)
    ensures
        spec_printed(entries, path_mode, target, true, single) == Seq::<Seq<char>>::empty(),
    decreases entries.len(),
{
    if entries.len() > 0 {
        lemma_quiet_silent(entries.drop_first(), path_mode, target, single);
        assert(spec_printed(entries, path_mode, target, true, single)
            =~= Seq::<Seq<char>>::empty());
    }
}

/// Law: with neither quiet nor single-shot set, the report lists the
/// identifiers of all matching entries, in enumeration order — nothing is
/// dropped, added or reordered.
pub proof fn lemma_plain_report_lists_all_matches(
    entries: Seq<ProcEntry>,
    path_mode: bool,
    target: Seq<u8>,
)
    ensures
        spec_printed(entries, path_mode, target, false, false) == spec_match_pids(
            entries,
            path_mode,
            target,
        ),
    decreases entries.len(),
{
    if entries.len() > 0 {
        lemma_plain_report_lists_all_matches(entries.drop_first(), path_mode, target);
    }
}

/// What a scan reports: whether any entry matched, and the identifiers to
/// print, in enumeration order.
pub struct ScanReport {
    /// Whether at least one entry matched.
    pub found: bool,
    /// The identifiers of the reported matches, one per output line.
    pub printed: Vec<String>,
}

impl ScanReport {
    /// The process exit code the report stands for: success exactly when a
    /// match was found.
    pub fn exit_code(&self) -> (r: i32)
        ensures
            r == (if self.found {
                0i32
            } else {
                1i32
            }),
    {
        if self.found {
            0
        } else {
            1
        }
    }
}

/// Scans a process-table snapshot in one pass, in enumeration order:
/// reports whether any entry matched the target under the selected rule,
/// and the identifiers of the matches — none when quiet is set, and only
/// the first when single-shot is set, in which case the scan stops there.
pub fn scan_table(
    entries: &Vec<ProcEntry>,
    path_mode: bool,
    target: &Vec<u8>,
    flags: Flags,
) -> (r: ScanReport)
    ensures
        r.found == spec_found(entries@, path_mode, target@),
        r.printed.deep_view() == spec_printed(
            entries@,
            path_mode,
            target@,
            flags.quiet,
            flags.single,
        ),
{
    let mut found: bool = false;
    let mut printed: Vec<String> = Vec::new();
    let mut k: usize = 0;
    while k < entries.len()
        invariant
            0 <= k <= entries@.len(),
            found == spec_found(entries@.take(k as int), path_mode, target@),
            printed.deep_view() == spec_printed(
                entries@.take(k as int),
                path_mode,
                target@,
                flags.quiet,
                flags.single,
            ),
            flags.single ==> !found,
        decreases entries@.len() - k,
    {
        let ghost prefix: Seq<ProcEntry> = entries@.take(k as int);
        let ghost before: Seq<Seq<char>> = printed.deep_view();
        let e: &ProcEntry = &entries[k];
        let m: bool = entry_matches(e, path_mode, target);
        proof {
            assert(entries@.take(k as int + 1) =~= prefix.push(entries@[k as int]));
            lemma_found_snoc(prefix, entries@[k as int], path_mode, target@);
            lemma_printed_snoc(
                prefix,
                entries@[k as int],
                path_mode,
                target@,
                flags.quiet,
                flags.single,
            );
        }
        if m {
            found = true;
            if !flags.quiet {
                printed.push(e.pid.clone());
                proof {
                    assert(printed.deep_view() =~= before + seq![entries@[k as int].pid@]);
                }
            } else {
                proof {
                    assert(before + Seq::<Seq<char>>::empty() =~= before);
                }
            }
            if flags.single {
                proof {
                    assert(forall|j: int| 0 <= j < k ==> prefix[j] == entries@[j]);
                    assert(forall|j: int|
                        0 <= j < k ==> !spec_is_match(entries@[j], path_mode, target@)) by {
                        if exists|j: int|
                            0 <= j < k && spec_is_match(entries@[j], path_mode, target@) {
                            let j = choose|j: int|
                                0 <= j < k && spec_is_match(entries@[j], path_mode, target@);
                            assert(spec_is_match(prefix[j], path_mode, target@));
                        }
                    }
                    lemma_single_shot_stops(entries@, path_mode, target@, flags.quiet, k as int);
                    lemma_no_match_no_output(
                        prefix,
                        path_mode,
                        target@,
                        flags.quiet,
                        flags.single,
                    );
                    assert(Seq::<Seq<char>>::empty() + seq![entries@[k as int].pid@]
                        =~= seq![entries@[k as int].pid@]);
                }
                return ScanReport { found, printed };
            }
        } else {
            proof {
                assert(before + Seq::<Seq<char>>::empty() =~= before);
            }
        }
        k = k + 1;
    }
    proof {
        assert(entries@.take(entries@.len() as int) =~= entries@);
    }
    ScanReport { found, printed }
}

} // verus!
