//! Classification of a single token: digital resources, acronyms, internal
//! capitals, slash compounds, parenthesized phrases, and the default
//! capitalize-the-first-letter rule.

use vstd::prelude::*;

use crate::runs::{lemma_run_len_is, run_len};
use crate::unicode::{char_to_uppercase, is_upper_char, upper_of};

verus! {

/// An ASCII letter.
pub open spec fn is_ascii_alpha(c: char) -> bool {
    ('a' as u32 <= c as u32 && c as u32 <= 'z' as u32) || ('A' as u32 <= c as u32 && c as u32
        <= 'Z' as u32)
}

/// Executable test for [`is_ascii_alpha`].
pub fn ascii_alpha(c: char) -> (r: bool)
    ensures
        r == is_ascii_alpha(c),
{
    ('a' as u32 <= c as u32 && c as u32 <= 'z' as u32) || ('A' as u32 <= c as u32 && c as u32
        <= 'Z' as u32)
}

/// A path separator: forward or backward slash.
pub open spec fn is_path_sep(c: char) -> bool {
    c == '/' || c == '\\'
}

/// After a path separator and a letter, the characters a file path may go
/// on with: letters, hyphens, underscores and more separators.
pub open spec fn is_path_tail_char(c: char) -> bool {
    c == '-' || c == '_' || is_ascii_alpha(c) || is_path_sep(c)
}

/// The characters a host, scheme or mailbox name is made of.
pub open spec fn is_host_head_char(c: char) -> bool {
    c == '-' || c == '_' || is_ascii_alpha(c)
}

/// The punctuation that separates a name from the rest of a URL, domain or
/// email address.
pub open spec fn is_host_sep(c: char) -> bool {
    c == '@' || c == '.' || c == ':'
}

/// The characters the rest of a URL, domain or email address is made of.
pub open spec fn is_host_tail_char(c: char) -> bool {
    is_host_head_char(c) || is_host_sep(c) || c == '/'
}

/// The leading run of host-name characters, as a shared predicate term.
pub open spec fn host_head_pred() -> spec_fn(char) -> bool {
    |c: char| is_host_head_char(c)
}

/// Whether a token is shaped like a file path, URL, domain or email
/// address: a path separator, a letter and a path character; or a nonempty
/// name, one of `@` `.` `:`, and a tail character. The test is a prefix
/// test: whatever follows the matched prefix does not matter.
pub open spec fn spec_is_digital(w: Seq<char>) -> bool {
    ||| (w.len() >= 3 && is_path_sep(w[0]) && is_ascii_alpha(w[1]) && is_path_tail_char(w[2]))
    ||| {
        let a = run_len(w, host_head_pred());
        &&& a >= 1
        &&& a + 1 < w.len()
        &&& is_host_sep(w[a])
        &&& is_host_tail_char(w[a + 1])
    }
}

/// Whether a token is shaped like a file path, URL, domain or email
/// address; such a token passes through the rewriter unchanged.
pub fn is_digital_resource(w: &Vec<char>) -> (r: bool)
    ensures
        r == spec_is_digital(w@),
{
    if w.len() >= 3 && (w[0] == '/' || w[0] == '\\') && ascii_alpha(w[1]) && (w[2] == '-' || w[2]
        == '_' || ascii_alpha(w[2]) || w[2] == '/' || w[2] == '\\') {
        return true;
    }
    let mut a: usize = 0;
    while a < w.len() && (w[a] == '-' || w[a] == '_' || ascii_alpha(w[a]))
        invariant
            a <= w@.len(),
            forall|i: int| 0 <= i < a ==> is_host_head_char(w@[i]),
        decreases w@.len() - a,
    {
        a = a + 1;
    }
    proof {
        lemma_run_len_is(w@, host_head_pred(), a as int);
    }
    a >= 1 && a < w.len() - 1 && (w[a] == '@' || w[a] == '.' || w[a] == ':') && (w[a + 1] == '-'
        || w[a + 1] == '_' || ascii_alpha(w[a + 1]) || w[a + 1] == '@' || w[a + 1] == '.' || w[a
        + 1] == ':' || w[a + 1] == '/')
}

/// A character an acronym may consist of: an ASCII capital or digit.
pub open spec fn is_acro_char(c: char) -> bool {
    ('A' as u32 <= c as u32 && c as u32 <= 'Z' as u32) || ('0' as u32 <= c as u32 && c as u32
        <= '9' as u32)
}

/// The opening-parenthesis run, as a shared predicate term.
pub open spec fn open_paren_pred() -> spec_fn(char) -> bool {
    |c: char| c == '('
}

/// The acronym-character run, as a shared predicate term.
pub open spec fn acro_pred() -> spec_fn(char) -> bool {
    |c: char| is_acro_char(c)
}

/// The closing-parenthesis run, as a shared predicate term.
pub open spec fn close_paren_pred() -> spec_fn(char) -> bool {
    |c: char| c == ')'
}

/// Whether a token is a fully parenthesized acronym: one or more `(`, one
/// or more ASCII capitals or digits, one or more `)`, nothing else, with as
/// many closing as opening parentheses.
pub open spec fn spec_is_acronym(w: Seq<char>) -> bool {
    let p = run_len(w, open_paren_pred());
    let q = run_len(w.skip(p), acro_pred());
    let r = run_len(w.skip(p).skip(q), close_paren_pred());
    p >= 1 && q >= 1 && r >= 1 && p + q + r == w.len() && p == r
}

/// Whether a token is a fully parenthesized acronym such as `(BBC)` or
/// `((ABC))`; such a token keeps its capitals.
pub fn is_acronym(w: &Vec<char>) -> (r: bool)
    ensures
        r == spec_is_acronym(w@),
{
    let n = w.len();
    let mut p: usize = 0;
    while p < n && w[p] == '('
        invariant
            n == w@.len(),
            p <= n,
            forall|i: int| 0 <= i < p ==> w@[i] == '(',
        decreases n - p,
    {
        p = p + 1;
    }
    let mut q: usize = p;
    while q < n && (('A' as u32 <= w[q] as u32 && w[q] as u32 <= 'Z' as u32) || ('0' as u32 <= w[q]
        as u32 && w[q] as u32 <= '9' as u32))
        invariant
            n == w@.len(),
            p <= q <= n,
            forall|i: int| p <= i < q ==> is_acro_char(w@[i]),
            forall|i: int| 0 <= i < p ==> w@[i] == '(',
            p < n ==> !(w@[p as int] == '('),
        decreases n - q,
    {
        q = q + 1;
    }
    let mut r: usize = q;
    while r < n && w[r] == ')'
        invariant
            n == w@.len(),
            q <= r <= n,
            forall|i: int| q <= i < r ==> w@[i] == ')',
        decreases n - r,
    {
        r = r + 1;
    }
    proof {
        lemma_run_len_is(w@, open_paren_pred(), p as int);
        assert forall|i: int| 0 <= i < q - p implies acro_pred()(w@.skip(p as int)[i]) by {
            assert(w@.skip(p as int)[i] == w@[p + i]);
        }
        if q < n {
            assert(w@.skip(p as int)[q - p] == w@[q as int]);
        }
        lemma_run_len_is(w@.skip(p as int), acro_pred(), q - p);
        assert forall|i: int| 0 <= i < r - q implies (#[trigger] w@.skip(p as int).skip(q - p)[i])
            == ')' by {
            assert(w@.skip(p as int).skip(q - p)[i] == w@[q + i]);
        }
        if r < n {
            assert(w@.skip(p as int).skip(q - p)[r - q] == w@[r as int]);
        }
        lemma_run_len_is(w@.skip(p as int).skip(q - p), close_paren_pred(), r - q);
    }
    p >= 1 && q - p >= 1 && r - q >= 1 && r == n && p == r - q
}

/// Whether any character after the first is an uppercase letter, as in
/// `iPhone` or `AT&T`.
pub open spec fn spec_has_internal_caps(w: Seq<char>) -> bool {
    exists|i: int| 1 <= i < w.len() && is_upper_char(w[i])
}

/// Whether any character after the first is an uppercase letter; such a
/// token passes through unchanged.
pub fn has_internal_caps(w: &Vec<char>) -> (r: bool)
    ensures
        r == spec_has_internal_caps(w@),
{
    let mut i: usize = 1;
    while i < w.len()
        invariant
            1 <= i,
            i <= w@.len() || w@.len() < 1,
            forall|k: int| 1 <= k < i && k < w@.len() ==> !is_upper_char(w@[k]),
        decreases w@.len() - i,
    {
        if w[i].is_uppercase() {
            return true;
        }
        i = i + 1;
    }
    false
}

/// Whether the token contains a slash after its first character.
pub open spec fn spec_has_internal_slashes(w: Seq<char>) -> bool {
    exists|i: int| 1 <= i < w.len() && w[i] == '/'
}

/// Whether the token contains a slash after its first character; such a
/// token is title-cased term by term.
pub fn has_internal_slashes(w: &Vec<char>) -> (r: bool)
    ensures
        r == spec_has_internal_slashes(w@),
{
    let mut i: usize = 1;
    while i < w.len()
        invariant
            1 <= i,
            i <= w@.len() || w@.len() < 1,
            forall|k: int| 1 <= k < i && k < w@.len() ==> w@[k] != '/',
        decreases w@.len() - i,
    {
        if w[i] == '/' {
            return true;
        }
        i = i + 1;
    }
    false
}

/// Whether the token opens with a parenthesis.
pub open spec fn spec_starts_with_bracket(w: Seq<char>) -> bool {
    w.len() > 0 && w[0] == '('
}

/// Whether the token opens with a parenthesis; the text after it is
/// title-cased as a phrase of its own.
pub fn starts_with_bracket(w: &Vec<char>) -> (r: bool)
    ensures
        r == spec_starts_with_bracket(w@),
{
    w.len() > 0 && w[0] == '('
}

/// The default transformation: the Unicode uppercase mapping of the first
/// character, then the rest unchanged.
pub open spec fn spec_ucfirst(w: Seq<char>) -> Seq<char> {
    if w.len() == 0 {
        w
    } else {
        upper_of(w[0]) + w.skip(1)
    }
}

/// Capitalizes the first character of a token, leaving the rest as it is.
pub fn ucfirst(w: &Vec<char>) -> (r: Vec<char>)
    ensures
        r@ == spec_ucfirst(w@),
{
    if w.len() == 0 {
        let r: Vec<char> = Vec::new();
        proof {
            assert(r@ =~= w@);
        }
        r
    } else {
        let mut r = char_to_uppercase(w[0]);
        let mut i: usize = 1;
        while i < w.len()
            invariant
                1 <= i <= w@.len(),
                r@ == upper_of(w@[0]) + w@.subrange(1, i as int),
            decreases w@.len() - i,
        {
            r.push(w[i]);
            i = i + 1;
            proof {
                assert(r@ =~= upper_of(w@[0]) + w@.subrange(1, i as int));
            }
        }
        proof {
            assert(r@ =~= spec_ucfirst(w@));
        }
        r
    }
}

} // verus!
