//! The two byte-exact matching rules: path mode compares a process's
//! active-executable link target to the target string byte for byte; name
//! mode compares the basename of the first NUL-delimited token of the
//! process's command-line record to the target string byte for byte.

use vstd::prelude::*;
use vstd::string::StrSliceExecFns;

verus! {

/// A non-empty sequence of ASCII decimal digit characters: the shape of a
/// process-identifier entry name in the process table.
pub open spec fn spec_all_digits(s: Seq<char>) -> bool {
    s.len() > 0 && (forall|k: int| 0 <= k < s.len() ==> ('0' <= #[trigger] s[k] && s[k] <= '9'))
}

/// Whether an entry name consists only of decimal digits and is non-empty,
/// i.e. whether it names a process identifier.
pub fn is_all_digits(s: &str) -> (r: bool)
    ensures
        r == spec_all_digits(s@),
{
    let n: usize = s.unicode_len();
    if n == 0 {
        return false;
    }
    let mut k: usize = 0;
    while k < n
        invariant
            0 <= k <= n,
            n == s@.len(),
            forall|m: int| 0 <= m < k ==> ('0' <= #[trigger] s@[m] && s@[m] <= '9'),
        decreases n - k,
    {
        let c: char = s.get_char(k);
        if c < '0' || c > '9' {
            return false;
        }
        k = k + 1;
    }
    true
}

/// Exact byte-sequence equality: same length and identical bytes. This is
/// the comparison discipline of both matching rules; it never canonicalizes
/// or resolves paths.
pub fn bytes_eq_ascii(a: &[u8], b: &[u8]) -> (r: bool)
    ensures
        r == (a@ == b@),
{
    if a.len() != b.len() {
        return false;
    }
    let n: usize = a.len();
    let mut k: usize = 0;
    while k < n
        invariant
            0 <= k <= n,
            n == a@.len(),
            n == b@.len(),
            forall|m: int| 0 <= m < k ==> a@[m] == b@[m],
        decreases n - k,
    {
        if *vstd::slice::slice_index_get(a, k) != *vstd::slice::slice_index_get(b, k) {
            return false;
        }
        k = k + 1;
    }
    proof {
        assert(a@ =~= b@);
    }
    true
}

/// The byte that separates path components.
pub open spec fn slash() -> u8 {
    47u8
}

/// The byte that separates the arguments of a command-line record.
pub open spec fn nul() -> u8 {
    0u8
}

/// The prefix of a command-line record up to (excluding) its first NUL byte,
/// or the whole record if it holds none: the record's first token, the
/// invoked program name or path.
pub open spec fn first_nul_token(s: Seq<u8>) -> Seq<u8>
    decreases s.len(),
{
    if s.len() == 0 {
        s
    } else if s[0] == nul() {
        Seq::<u8>::empty()
    } else {
        seq![s[0]] + first_nul_token(s.drop_first())
    }
}

/// The portion of a byte sequence after its final path-separator byte, or
/// the whole sequence if it holds none. This is deliberately the literal
/// final-separator rule, not a path library's notion of a basename.
pub open spec fn basename(s: Seq<u8>) -> Seq<u8>
    decreases s.len(),
{
    if s.len() == 0 {
        s
    } else if s.last() == slash() {
        Seq::<u8>::empty()
    } else {
        basename(s.drop_last()).push(s.last())
    }
}

/// The first token of a record is the prefix that ends at the first NUL.
proof fn lemma_first_token_is_prefix(s: Seq<u8>, e: int)
    requires
        0 <= e <= s.len(),
        forall|m: int| 0 <= m < e ==> s[m] != nul(),
        e < s.len() ==> s[e] == nul(),
    ensures
        first_nul_token(s) == s.subrange(0, e),
    decreases e,
{
    if e == 0 {
        if s.len() == 0 {
            assert(first_nul_token(s) =~= s.subrange(0, 0));
        } else {
            assert(first_nul_token(s) =~= s.subrange(0, 0));
        }
    } else {
        lemma_first_token_is_prefix(s.drop_first(), e - 1);
        assert(first_nul_token(s) == seq![s[0]] + s.drop_first().subrange(0, e - 1));
        assert(seq![s[0]] + s.drop_first().subrange(0, e - 1) =~= s.subrange(0, e));
    }
}

/// A sequence without a path separator is its own basename.
proof fn lemma_basename_no_slash(t: Seq<u8>)
    requires
        forall|m: int| 0 <= m < t.len() ==> t[m] != slash(),
    ensures
        basename(t) == t,
    decreases t.len(),
{
    if t.len() > 0 {
        lemma_basename_no_slash(t.drop_last());
        assert(t.drop_last().push(t.last()) =~= t);
    }
}

/// The basename of a sequence whose final path separator stands at `j` is
/// the subrange after `j`.
proof fn lemma_basename_after_last_slash(t: Seq<u8>, j: int)
    requires
        0 <= j < t.len(),
        t[j] == slash(),
        forall|m: int| j < m < t.len() ==> t[m] != slash(),
    ensures
        basename(t) == t.subrange(j + 1, t.len() as int),
    decreases t.len(),
{
    if j == t.len() - 1 {
        assert(basename(t) =~= t.subrange(j + 1, t.len() as int));
    } else {
        lemma_basename_after_last_slash(t.drop_last(), j);
        assert(t.drop_last().subrange(j + 1, t.len() - 1).push(t.last()) =~= t.subrange(
            j + 1,
            t.len() as int,
        ));
    }
}

/// Whether the name-mode rule accepts a command-line record against a
/// target: the basename of the record's first NUL-delimited token equals the
/// target byte for byte.
pub open spec fn spec_name_matches(record: Seq<u8>, target: Seq<u8>) -> bool {
    basename(first_nul_token(record)) == target
}

/// The name-mode comparison: extract the first NUL-delimited token of the
/// command-line record, take the portion after its final path separator, and
/// compare it to the target byte for byte.
pub fn name_matches(record: &Vec<u8>, target: &Vec<u8>) -> (r: bool)
    ensures
        r == spec_name_matches(record@, target@),
{
    let n: usize = record.len();
    // End of the first token: the first NUL, or the end of the record.
    let mut e: usize = 0;
    while e < n && record[e] != 0u8
        invariant
            0 <= e <= n,
            n == record@.len(),
            forall|m: int| 0 <= m < e ==> record@[m] != nul(),
        decreases n - e,
    {
        e = e + 1;
    }
    proof {
        lemma_first_token_is_prefix(record@, e as int);
    }
    // Start of the basename: one past the final path separator in the token.
    let mut start: usize = 0;
    let mut k: usize = 0;
    while k < e
        invariant
            0 <= start <= k <= e <= n,
            n == record@.len(),
            start == 0 ==> forall|m: int| 0 <= m < k ==> record@[m] != slash(),
            start > 0 ==> record@[start - 1] == slash(),
            start > 0 ==> forall|m: int| start <= m < k ==> record@[m] != slash(),
        decreases e - k,
    {
        if record[k] == 47u8 {
            start = k + 1;
        }
        k = k + 1;
    }
    proof {
        let tok = record@.subrange(0, e as int);
        if start == 0 {
            assert(forall|m: int| 0 <= m < tok.len() ==> tok[m] != slash());
            lemma_basename_no_slash(tok);
        } else {
            assert(tok[start - 1] == slash());
            lemma_basename_after_last_slash(tok, start - 1);
        }
        assert(basename(first_nul_token(record@)) =~= record@.subrange(
            start as int,
            e as int,
        ));
    }
    // Compare the basename to the target byte for byte.
    if e - start != target.len() {
        return false;
    }
    let len: usize = target.len();
    let mut i: usize = 0;
    while i < len
        invariant
            0 <= i <= len,
            len == target@.len(),
            start + len == e <= n,
            n == record@.len(),
            basename(first_nul_token(record@)) == record@.subrange(start as int, e as int),
            forall|m: int| 0 <= m < i ==> record@[start + m] == target@[m],
        decreases len - i,
    {
        if record[start + i] != target[i] {
            proof {
                assert(record@.subrange(start as int, e as int)[i as int] == record@[start
                    + i]);
            }
            return false;
        }
        i = i + 1;
    }
    proof {
        assert(record@.subrange(start as int, e as int) =~= target@);
    }
    true
}

/// Whether a target string selects path mode: it contains at least one path
/// separator character. The classification is a pure function of the target
/// string alone, so it is deterministic and independent of scan order.
pub open spec fn spec_is_path_target(t: Seq<char>) -> bool {
    exists|k: int| 0 <= k < t.len() && t[k] == '/'
}

/// Classifies a target: path mode when it contains a path separator, name
/// mode otherwise.
pub fn is_path_target(t: &str) -> (r: bool)
    ensures
        r == spec_is_path_target(t@),
{
    let n: usize = t.unicode_len();
    let mut k: usize = 0;
    while k < n
        invariant
            0 <= k <= n,
            n == t@.len(),
            forall|m: int| 0 <= m < k ==> t@[m] != '/',
        decreases n - k,
    {
        if t.get_char(k) == '/' {
            return true;
        }
        k = k + 1;
    }
    false
}

} // verus!
