//! Title-casing of English text in an editorial style: small function words
//! are lowercased except at phrase boundaries, tokens that carry intentional
//! capitalization or look like paths, URLs or email addresses pass through
//! unchanged, and slash-joined compounds are cased term by term.

use vstd::prelude::*;

pub mod boundary;
pub mod classify;
pub mod laws;
pub mod rewrite;
pub mod runs;
pub mod small_words;
pub mod unicode;

verus! {

use crate::rewrite::{spec_titlecase_rec, titlecase_chars};
use crate::unicode::chars_to_string;

/// What [`titlecase`] returns: the pipeline applied to the input's
/// characters, with a recursion budget of the input's length — ample, since
/// each nested phrase or slash term consumes a parenthesis or slash of the
/// input.
pub open spec fn spec_titlecase(s: Seq<char>) -> Seq<char> {
    spec_titlecase_rec(s, false, s.len())
}

/// Returns `input` in title case: small words lowercased except at phrase
/// boundaries, file paths, URLs and email addresses untouched, intentional
/// capitalization preserved, slash compounds cased term by term.
pub fn titlecase(input: &str) -> (r: String)
    ensures
        r@ == spec_titlecase(input@),
{
    let v = str_to_chars(input);
    let d = v.len();
    let out = titlecase_chars(&v, false, d);
    chars_to_string(&out)
}

/// A trait describing an item that can be converted to title case.
pub trait Titlecase {
    /// The characters of the text to be converted.
    spec fn text(&self) -> Seq<char>;

    /// Converts `self` to title case.
    fn titlecase(&self) -> (r: String)
        ensures
            r@ == spec_titlecase(self.text()),
    ;
}

impl Titlecase for String {
    open spec fn text(&self) -> Seq<char> {
        self@
    }

    fn titlecase(&self) -> (r: String) {
        titlecase(self.as_str())
    }
}

impl Titlecase for str {
    open spec fn text(&self) -> Seq<char> {
        self@
    }

    fn titlecase(&self) -> (r: String) {
        titlecase(self)
    }
}

/// Converts a borrowed string into the vector of its characters.
pub fn str_to_chars(s: &str) -> (r: Vec<char>)
    ensures
        r@ == s@,
{
    let n = s.unicode_len();
    let mut v: Vec<char> = Vec::new();
    let mut i: usize = 0;
    while i < n
        invariant
            n == s@.len(),
            i <= n,
            v@ == s@.subrange(0, i as int),
        decreases n - i,
    {
        let c = s.get_char(i);
        v.push(c);
        i = i + 1;
        proof {
            assert(v@ =~= s@.subrange(0, i as int));
        }
    }
    proof {
        assert(v@ =~= s@);
    }
    v
}

/// Copies the characters of `s` between `from` and `to` into a new vector.
pub fn copy_range(s: &Vec<char>, from: usize, to: usize) -> (r: Vec<char>)
    requires
        from <= to,
        to <= s@.len(),
    ensures
        r@ == s@.subrange(from as int, to as int),
{
    let mut r: Vec<char> = Vec::new();
    proof {
        assert(r@ =~= s@.subrange(from as int, from as int));
    }
    let mut i: usize = from;
    while i < to
        invariant
            from <= i <= to <= s@.len(),
            r@ == s@.subrange(from as int, i as int),
        decreases to - i,
    {
        r.push(s[i]);
        i = i + 1;
        proof {
            assert(r@ =~= s@.subrange(from as int, i as int));
        }
    }
    r
}

/// Appends the characters of `s` between `from` and `to` onto `out`.
pub fn push_range(out: &mut Vec<char>, s: &Vec<char>, from: usize, to: usize)
    requires
        from <= to,
        to <= s@.len(),
    ensures
        final(out)@ == old(out)@ + s@.subrange(from as int, to as int),
{
    proof {
        assert(out@ =~= old(out)@ + s@.subrange(from as int, from as int));
    }
    let mut i: usize = from;
    while i < to
        invariant
            from <= i <= to <= s@.len(),
            out@ == old(out)@ + s@.subrange(from as int, i as int),
        decreases to - i,
    {
        out.push(s[i]);
        i = i + 1;
        proof {
            assert(out@ =~= old(out)@ + s@.subrange(from as int, i as int));
        }
    }
}

} // verus!
