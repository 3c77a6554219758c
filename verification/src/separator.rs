//! The separator formatter: a grouping character inserted into a digit
//! string at a fixed interval, counted from the least significant end.

use vstd::prelude::*;
use vstd::string::{StrSliceExecFns, StringExecFns};
use crate::convert::push_char;

verus! {

/// The string with the separator `c` inserted every `n` characters, counted
/// from the right end. With `n == 0`, or a string no longer than `n`, the
/// string itself.
pub open spec fn with_separators(s: Seq<char>, n: nat, c: char) -> Seq<char>
    decreases s.len(),
{
    if n == 0 || s.len() <= n {
        s
    } else {
        with_separators(s.take(s.len() - n), n, c).push(c) + s.skip(s.len() - n)
    }
}

/// Inserts `sep` into `s` every `interval` characters, counted from the
/// right end; an interval of zero leaves the string unchanged, as does one
/// no shorter than the string.
pub fn insert_separators(s: &str, interval: u32, sep: char) -> (r: String)
    ensures
        r@ == with_separators(s@, interval as nat, sep),
    decreases s@.len(),
{
    let n = s.unicode_len();
    if interval == 0 || n <= interval as usize {
        String::from_str(s)
    } else {
        let m = n - (interval as usize);
        let left = s.substring_char(0, m);
        let right = s.substring_char(m, n);
        let mut out = insert_separators(left, interval, sep);
        push_char(&mut out, sep);
        out.append(right);
        proof {
            assert(left@ =~= s@.take(s@.len() - interval as nat));
            assert(right@ =~= s@.skip(s@.len() - interval as nat));
            assert(out@ =~= with_separators(s@, interval as nat, sep));
        }
        out
    }
}

/// Law: with interval zero — the disabled formatter — or an interval no
/// shorter than the string, the formatter is the identity transform.
pub proof fn lemma_separator_identity(s: Seq<char>, n: nat, c: char)
    requires
        n == 0 || s.len() <= n,
    ensures
        with_separators(s, n, c) == s,
{
}

/// Law: the formatter keeps the first character of a non-empty string in
/// place, so its output never begins with the separator unless the input
/// already did.
pub proof fn lemma_no_leading_separator(s: Seq<char>, n: nat, c: char)
    requires
        n >= 1,
        s.len() > 0,
    ensures
        with_separators(s, n, c).len() > 0,
        with_separators(s, n, c)[0] == s[0],
        s[0] != c ==> with_separators(s, n, c)[0] != c,
    decreases s.len(),
{
    if s.len() > n {
        let head = s.take(s.len() - n);
        lemma_no_leading_separator(head, n, c);
        assert(head[0] == s[0]);
        let w = with_separators(head, n, c);
        assert((w.push(c) + s.skip(s.len() - n))[0] == w.push(c)[0]);
        assert(w.push(c)[0] == w[0]);
    }
}

} // verus!
