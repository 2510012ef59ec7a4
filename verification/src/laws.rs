//! The engine's laws, stated over the specification model and proved once
//! and for all.

use vstd::prelude::*;

use crate::boundary::{
    after_end_group, entry_at, fe_match_at, fe_scan, fs_match_at, fs_scan,
    lemma_small_end_match_bounds, lemma_small_start_match_bounds, punct_pred, is_close_quote,
    small_end_match, small_start_match, spec_fix_end, spec_fix_start, word_boundary,
};
use crate::classify::{
    spec_has_internal_caps, spec_has_internal_slashes, spec_is_acronym, spec_is_digital,
    spec_starts_with_bracket, spec_ucfirst,
};
use crate::rewrite::{
    not_slash_pred, space_pred, spec_has_lower, spec_process_word, spec_rewrite, spec_slash,
    spec_titlecase_rec, spec_transform_run, trim_end_spec, trim_spec, word_pred,
};
use crate::runs::{lemma_run_len, lemma_run_len_is, run_len};
use crate::small_words::is_small_entry;
use crate::unicode::{is_space_char, is_word_char, lower_of, upper_of};

verus! {

/// A token shaped like a file path, URL, domain or email address is never
/// re-cased: the word processor returns it unchanged.
pub proof fn lemma_digital_resource_unchanged(w: Seq<char>, d: nat)
    requires
        spec_is_digital(w),
    ensures
        spec_process_word(w, d) == w,
{
}

/// A token whose lowercase form is a small word, and which is not a
/// digital resource, is emitted fully lowercased, however it was cased
/// before.
pub proof fn lemma_small_word_lowercased(w: Seq<char>, d: nat)
    requires
        is_small_entry(lower_of(w)),
        !spec_is_digital(w),
    ensures
        spec_process_word(w, d) == lower_of(w),
{
}

/// A token with an uppercase letter after its first character — `iPhone`,
/// `AT&T`, and their possessives — passes through verbatim, provided it is
/// not a small word, a slash compound or a parenthesized phrase.
pub proof fn lemma_internal_caps_preserved(w: Seq<char>, d: nat)
    requires
        spec_has_internal_caps(w),
        !is_small_entry(lower_of(w)),
        !spec_has_internal_slashes(w),
        !spec_starts_with_bracket(w),
    ensures
        spec_process_word(w, d) == w,
{
}

/// A fully parenthesized acronym keeps all of its capitals: unless its
/// lowercase form is a small word, the word processor returns it unchanged,
/// and in particular never treats it as a parenthesized phrase to recurse
/// into.
pub proof fn lemma_acronym_preserved(w: Seq<char>, d: nat)
    requires
        spec_is_acronym(w),
        !is_small_entry(lower_of(w)),
    ensures
        spec_process_word(w, d) == w,
{
    let p = run_len(w, crate::classify::open_paren_pred());
    let q = run_len(w.skip(p), crate::classify::acro_pred());
    lemma_run_len(w, crate::classify::open_paren_pred());
    lemma_run_len(w.skip(p), crate::classify::acro_pred());
    lemma_run_len(w.skip(p).skip(q), crate::classify::close_paren_pred());
    assert forall|i: int| 0 <= i < w.len() implies w[i] != '/' by {
        if i < p {
            assert(w[i] == '(');
        } else if i < p + q {
            assert(w.skip(p)[i - p] == w[i]);
            assert(crate::classify::is_acro_char(w[i]));
        } else {
            assert(w.skip(p).skip(q)[i - p - q] == w[i]);
            assert(w[i] == ')');
        }
    }
    assert(!spec_has_internal_slashes(w));
}

/// A token the word processor passes through unchanged is a fixed point:
/// processing it a second time changes nothing either.
pub proof fn lemma_process_word_idempotent_when_unchanged(w: Seq<char>, d: nat)
    requires
        spec_process_word(w, d) == w,
    ensures
        spec_process_word(spec_process_word(w, d), d) == spec_process_word(w, d),
{
}

/// A slash compound that is neither a digital resource nor a small word is
/// title-cased term by term while any recursion budget remains.
pub proof fn lemma_slash_compound_processed(w: Seq<char>, d: nat)
    requires
        spec_has_internal_slashes(w),
        !spec_is_digital(w),
        !is_small_entry(lower_of(w)),
        d >= 1,
    ensures
        spec_process_word(w, d) == spec_slash(w, (d - 1) as nat),
{
}

/// Splitting on the slash does what it says: for a compound of two
/// slash-free terms, each term is title-cased on its own, without the
/// yelling normalizer, and the terms are rejoined with the slash.
pub proof fn lemma_slash_two_terms(u: Seq<char>, v: Seq<char>, d: nat)
    requires
        forall|i: int| 0 <= i < u.len() ==> u[i] != '/',
        forall|i: int| 0 <= i < v.len() ==> v[i] != '/',
    ensures
        spec_slash(u + seq!['/'] + v, d) == spec_titlecase_rec(u, true, d) + seq!['/']
            + spec_titlecase_rec(v, true, d),
{
    let s = u + seq!['/'] + v;
    assert forall|i: int| 0 <= i < u.len() implies not_slash_pred()(#[trigger] s[i]) by {
        assert(s[i] == u[i]);
    }
    assert(s[u.len() as int] == '/');
    lemma_run_len_is(s, not_slash_pred(), u.len() as int);
    assert(s.subrange(0, u.len() as int) =~= u);
    assert(s.skip(u.len() as int + 1) =~= v);
    assert forall|i: int| 0 <= i < v.len() implies not_slash_pred()(#[trigger] v[i]) by {}
    lemma_run_len_is(v, not_slash_pred(), v.len() as int);
    assert(spec_slash(v, d) == spec_titlecase_rec(v, true, d));
    assert(spec_slash(s, d) == spec_titlecase_rec(s.subrange(0, u.len() as int), true, d)
        + seq!['/'] + spec_slash(s.skip(u.len() as int + 1), d));
}

/// Yelling is normalized: when the trimmed input has no lowercase letter at
/// all, the pipeline runs on its lowercased form instead.
pub proof fn lemma_yelling_normalized(s: Seq<char>, d: nat)
    requires
        !spec_has_lower(trim_spec(s)),
    ensures
        spec_titlecase_rec(s, false, d) == crate::boundary::spec_fix_end(
            crate::boundary::spec_fix_start(spec_rewrite(lower_of(trim_spec(s)), d)),
        ),
{
}

/// Trimming keeps a prefix of its input and never leaves a trailing space.
proof fn lemma_trim_end_props(s: Seq<char>)
    ensures
        trim_end_spec(s).len() <= s.len(),
        trim_end_spec(s) == s.subrange(0, trim_end_spec(s).len() as int),
        trim_end_spec(s).len() > 0 ==> !is_space_char(s[trim_end_spec(s).len() - 1]),
    decreases s.len(),
{
    if s.len() == 0 {
        assert(s.subrange(0, 0) =~= s);
    } else if is_space_char(s[s.len() - 1]) {
        lemma_trim_end_props(s.drop_last());
        let m = trim_end_spec(s).len() as int;
        assert(s.drop_last().subrange(0, m) =~= s.subrange(0, m));
        if m > 0 {
            assert(s.drop_last()[m - 1] == s[m - 1]);
        }
    } else {
        assert(s.subrange(0, s.len() as int) =~= s);
    }
}

/// Trimming is idempotent: a trimmed phrase has nothing more to trim.
pub proof fn lemma_trim_idempotent(s: Seq<char>)
    ensures
        trim_spec(trim_spec(s)) == trim_spec(s),
{
    let b = run_len(s, space_pred());
    lemma_run_len(s, space_pred());
    let x = s.skip(b);
    let t = trim_end_spec(x);
    lemma_trim_end_props(x);
    if t.len() == 0 {
        assert(run_len(t, space_pred()) == 0);
        assert(t.skip(0) =~= t);
        assert(trim_spec(t) == t);
    } else {
        assert(t[0] == x.subrange(0, t.len() as int)[0]);
        assert(t[0] == x[0]);
        assert(b < s.len());
        assert(x[0] == s[b]);
        assert(!is_space_char(t[0]));
        assert(run_len(t, space_pred()) == 0);
        assert(t.skip(0) =~= t);
        assert(t[t.len() - 1] == x[t.len() - 1]);
        assert(!is_space_char(t[t.len() - 1]));
        assert(trim_end_spec(t) == t);
    }
}

/// Leading and trailing whitespace never matters: the pipeline gives the
/// same result on the input and on its trimmed form.
pub proof fn lemma_titlecase_ignores_surrounding_whitespace(s: Seq<char>, skip_lower: bool, d: nat)
    ensures
        spec_titlecase_rec(s, skip_lower, d) == spec_titlecase_rec(trim_spec(s), skip_lower, d),
{
    lemma_trim_idempotent(s);
}

/// The rewriter with the token transformation abstracted away: separators
/// are copied verbatim and `f` is applied to each maximal token run.
pub open spec fn spec_rewrite_with(s: Seq<char>, f: spec_fn(Seq<char>) -> Seq<char>) -> Seq<char>
    decreases s.len(),
    via spec_rewrite_with_dec
{
    if s.len() == 0 {
        s
    } else if !is_word_char(s[0]) {
        seq![s[0]] + spec_rewrite_with(s.skip(1), f)
    } else {
        let n = run_len(s, word_pred());
        f(s.subrange(0, n)) + spec_rewrite_with(s.skip(n), f)
    }
}

#[via_fn]
proof fn spec_rewrite_with_dec(s: Seq<char>, f: spec_fn(Seq<char>) -> Seq<char>) {
    if s.len() > 0 && is_word_char(s[0]) {
        lemma_run_len(s, word_pred());
        assert(word_pred()(s[0]));
    }
}

/// The rewriter is exactly the in-place transformation of each token run.
pub proof fn lemma_rewrite_transforms_tokens_in_place(s: Seq<char>, d: nat)
    ensures
        spec_rewrite(s, d) == spec_rewrite_with(s, |run: Seq<char>| spec_transform_run(run, d)),
    decreases s.len(),
{
    if s.len() == 0 {
    } else if !is_word_char(s[0]) {
        lemma_rewrite_transforms_tokens_in_place(s.skip(1), d);
    } else {
        lemma_run_len(s, word_pred());
        assert(word_pred()(s[0]));
        lemma_rewrite_transforms_tokens_in_place(s.skip(run_len(s, word_pred())), d);
    }
}

/// Replacing every token by itself reproduces the input exactly: the
/// rewrite pass never drops, reorders or alters a separator character, and
/// rewrites nothing but the tokens, each in its place.
pub proof fn lemma_rewrite_identity(s: Seq<char>)
    ensures
        spec_rewrite_with(s, |run: Seq<char>| run) == s,
    decreases s.len(),
{
    if s.len() == 0 {
    } else if !is_word_char(s[0]) {
        lemma_rewrite_identity(s.skip(1));
        assert(seq![s[0]] + s.skip(1) =~= s);
    } else {
        lemma_run_len(s, word_pred());
        assert(word_pred()(s[0]));
        let n = run_len(s, word_pred());
        lemma_rewrite_identity(s.skip(n));
        assert(s.subrange(0, n) + s.skip(n) =~= s);
    }
}

/// A small word standing at the very start of the rewritten text — with a
/// word boundary after it — is capitalized by the start corrector: the
/// output opens with the uppercase mapping of its first letter, then the
/// rest of the matched word, then the corrected remainder.
pub proof fn lemma_small_word_at_start_is_capitalized(s: Seq<char>)
    requires
        exists|k: int|
            1 <= k <= s.len() && is_small_entry(#[trigger] s.subrange(0, k)) && word_boundary(s, k),
    ensures
        exists|e: int|
            1 <= e <= s.len() && is_small_entry(#[trigger] s.subrange(0, e)) && spec_fix_start(s)
                == upper_of(s[0]) + s.subrange(1, e) + fs_scan(s, e),
{
    let k = choose|k: int|
        1 <= k <= s.len() && is_small_entry(#[trigger] s.subrange(0, k)) && word_boundary(s, k);
    let w = s.subrange(0, k);
    assert(s[0] == w[0]);
    assert(!punct_pred()(s[0]));
    assert(run_len(s, punct_pred()) == 0);
    assert(entry_at(s, 0, w));
    let m = small_start_match(s, 0);
    assert(m is Some);
    let e = m.unwrap();
    lemma_small_start_match_bounds(s, 0);
    assert(is_small_entry(s.subrange(0, e)));
    assert(fs_match_at(s, 0) == Some((0int, e)));
    assert(fs_scan(s, 0) == s.subrange(0, 0) + spec_ucfirst(s.subrange(0, e)) + fs_scan(s, e));
    assert(s.subrange(0, e)[0] == s[0]);
    assert(s.subrange(0, e).skip(1) =~= s.subrange(1, e));
    assert(s.subrange(0, 0) + (upper_of(s[0]) + s.subrange(1, e)) + fs_scan(s, e) =~= upper_of(
        s[0],
    ) + s.subrange(1, e) + fs_scan(s, e));
}

/// Where the end corrector has nothing to do, it copies the text verbatim.
proof fn lemma_fe_scan_copies(s: Seq<char>, pos: int, b: int)
    requires
        0 <= pos <= b <= s.len(),
        forall|i: int| pos <= i < b ==> #[trigger] fe_match_at(s, i) is None,
    ensures
        fe_scan(s, pos) == s.subrange(pos, b) + fe_scan(s, b),
    decreases b - pos,
{
    if pos == b {
        assert(s.subrange(pos, b) =~= Seq::<char>::empty());
        assert(s.subrange(pos, b) + fe_scan(s, b) =~= fe_scan(s, b));
    } else {
        assert(fe_match_at(s, pos) is None);
        lemma_fe_scan_copies(s, pos + 1, b);
        assert(seq![s[pos]] + (s.subrange(pos + 1, b) + fe_scan(s, b)) =~= s.subrange(pos, b)
            + fe_scan(s, b));
    }
}

/// A small word standing at the very end of the rewritten text — with a
/// word boundary before it, and no earlier end-corrector match — is
/// capitalized by the end corrector: everything before it is kept, and the
/// word's first letter is raised to its uppercase mapping.
pub proof fn lemma_small_word_at_end_is_capitalized(u: Seq<char>, w: Seq<char>)
    requires
        is_small_entry(w),
        word_boundary(u + w, u.len() as int),
        forall|i: int| 0 <= i < u.len() ==> #[trigger] fe_match_at(u + w, i) is None,
    ensures
        spec_fix_end(u + w) == u + (upper_of(w[0]) + w.skip(1)),
{
    let s = u + w;
    let b = u.len() as int;
    let n = s.len() as int;
    assert(w.len() >= 1);
    lemma_fe_scan_copies(s, 0, b);
    assert(s.subrange(0, b) =~= u);
    assert forall|k2: int| b <= k2 < n implies !is_close_quote(#[trigger] s[k2]) by {
        assert(s[k2] == w[k2 - b]);
    }
    assert(entry_at(s, b, w)) by {
        assert(s.subrange(b, b + w.len()) =~= w);
    }
    assert(s.skip(n) =~= Seq::<char>::empty());
    assert(run_len(s.skip(n), punct_pred()) == 0);
    assert(after_end_group(s, n) == Some(n));
    let m = small_end_match(s, b);
    assert(m is Some);
    lemma_small_end_match_bounds(s, b);
    let e = m.unwrap();
    assert forall|k2: int|
        b < k2 <= n && #[trigger] after_end_group(s, k2) is Some implies after_end_group(s, k2)
            == Some(n) by {
        if k2 < n {
            assert(!is_close_quote(s[k2]));
        }
    }
    assert(e == n);
    assert(fe_match_at(s, b) == Some(n));
    assert(fe_scan(s, b) == upper_of(s[b]) + s.subrange(b + 1, n) + fe_scan(s, n));
    assert(fe_scan(s, n) =~= Seq::<char>::empty());
    assert(s[b] == w[0]);
    assert(s.subrange(b + 1, n) =~= w.skip(1));
    assert(u + (upper_of(w[0]) + w.skip(1) + fe_scan(s, n)) =~= u + (upper_of(w[0]) + w.skip(1)));
}

} // verus!
