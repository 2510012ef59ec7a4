//! The pipeline: trim, normalize yelling, tokenize and rewrite, then fix
//! the phrase boundaries. Recursion into parenthesized phrases and slash
//! compounds carries a depth budget, never reached by real text, whose
//! nesting is bounded by its parentheses and slashes; a token that would
//! need more depth than the budget passes through unchanged.

use vstd::prelude::*;

use crate::boundary::{spec_fix_end, spec_fix_start};
use crate::boundary::{fix_small_word_at_end, fix_small_word_at_start};
use crate::classify::{
    has_internal_caps, has_internal_slashes, is_acronym, is_digital_resource, spec_has_internal_caps,
    spec_has_internal_slashes, spec_is_acronym, spec_is_digital, spec_starts_with_bracket,
    spec_ucfirst, starts_with_bracket, ucfirst,
};
use crate::runs::{lemma_run_len, lemma_run_len_is, run_len};
use crate::small_words::{is_small_entry, is_small_word};
use crate::unicode::{is_lower_char, is_space_char, is_word_char, lower_of, to_lowercase_chars, word_char};
use crate::{copy_range, push_range};

verus! {

/// The whitespace run, as a shared predicate term.
pub open spec fn space_pred() -> spec_fn(char) -> bool {
    |c: char| is_space_char(c)
}

/// The token-character run, as a shared predicate term.
pub open spec fn word_pred() -> spec_fn(char) -> bool {
    |c: char| is_word_char(c)
}

/// The underscore run, as a shared predicate term.
pub open spec fn underscore_pred() -> spec_fn(char) -> bool {
    |c: char| c == '_'
}

/// The slash-free run, as a shared predicate term.
pub open spec fn not_slash_pred() -> spec_fn(char) -> bool {
    |c: char| c != '/'
}

/// `s` with its trailing whitespace removed.
pub open spec fn trim_end_spec(s: Seq<char>) -> Seq<char>
    decreases s.len(),
{
    if s.len() == 0 {
        s
    } else if is_space_char(s[s.len() - 1]) {
        trim_end_spec(s.drop_last())
    } else {
        s
    }
}

/// `s` with its leading and trailing whitespace removed.
pub open spec fn trim_spec(s: Seq<char>) -> Seq<char> {
    trim_end_spec(s.skip(run_len(s, space_pred())))
}

/// A maximal space-free tail pins down what trimming at the end leaves.
pub proof fn lemma_trim_end_is(s: Seq<char>, m: int)
    requires
        0 <= m <= s.len(),
        forall|i: int| m <= i < s.len() ==> is_space_char(s[i]),
        m > 0 ==> !is_space_char(s[m - 1]),
    ensures
        trim_end_spec(s) == s.subrange(0, m),
    decreases s.len(),
{
    if s.len() == 0 {
        assert(s.subrange(0, 0) =~= s);
    } else if m == s.len() {
        assert(s.subrange(0, m) =~= s);
    } else {
        assert(is_space_char(s[s.len() - 1]));
        assert forall|i: int| m <= i < s.drop_last().len() implies is_space_char(
            #[trigger] s.drop_last()[i],
        ) by {
            assert(s.drop_last()[i] == s[i]);
        }
        if m > 0 {
            assert(s.drop_last()[m - 1] == s[m - 1]);
        }
        lemma_trim_end_is(s.drop_last(), m);
        assert(s.drop_last().subrange(0, m) =~= s.subrange(0, m));
    }
}

/// Whether any character of `s` is lowercase; if none is, the input is
/// yelling and is lowercased before classification.
pub open spec fn spec_has_lower(s: Seq<char>) -> bool {
    exists|i: int| 0 <= i < s.len() && is_lower_char(s[i])
}

/// How many of a token run's leading underscores stay outside the word:
/// all of them, except that a run of underscores alone keeps its last one
/// as the word.
pub open spec fn lead_underscores(run: Seq<char>) -> int {
    if run.len() == 0 {
        0
    } else {
        let u = run_len(run, underscore_pred());
        if u == run.len() {
            u - 1
        } else {
            u
        }
    }
}

/// The whole pipeline on one phrase: trim, lowercase if yelling (unless the
/// caller already normalized), rewrite the tokens, then fix the start and
/// end boundaries.
pub open spec fn spec_titlecase_rec(s: Seq<char>, skip_lower: bool, d: nat) -> Seq<char>
    decreases d, 3int, 0int,
{
    let t = trim_spec(s);
    let l = if skip_lower || spec_has_lower(t) {
        t
    } else {
        lower_of(t)
    };
    spec_fix_end(spec_fix_start(spec_rewrite(l, d)))
}

/// One pass over the text: separators are copied verbatim; each maximal run
/// of token characters is rewritten in place.
pub open spec fn spec_rewrite(s: Seq<char>, d: nat) -> Seq<char>
    decreases d, 2int, s.len(),
    via spec_rewrite_dec
{
    if s.len() == 0 {
        s
    } else if !is_word_char(s[0]) {
        seq![s[0]] + spec_rewrite(s.skip(1), d)
    } else {
        let n = run_len(s, word_pred());
        spec_transform_run(s.subrange(0, n), d) + spec_rewrite(s.skip(n), d)
    }
}

#[via_fn]
proof fn spec_rewrite_dec(s: Seq<char>, d: nat) {
    if s.len() > 0 && is_word_char(s[0]) {
        lemma_run_len(s, word_pred());
        assert(word_pred()(s[0]));
    }
}

/// A token run is rewritten as its leading underscores, kept verbatim,
/// followed by the processed word.
pub open spec fn spec_transform_run(run: Seq<char>, d: nat) -> Seq<char>
    decreases d, 1int, run.len() + 1,
{
    let lu = lead_underscores(run);
    run.subrange(0, lu) + spec_process_word(run.skip(lu), d)
}

/// How one word is transformed, the checks in engine order: a digital
/// resource passes through; a small word is fully lowercased; a slash
/// compound is title-cased term by term; a parenthesized acronym passes
/// through; a parenthesized phrase keeps its parenthesis and title-cases
/// the rest; a word with internal capitals passes through; anything else
/// has its first letter capitalized.
pub open spec fn spec_process_word(w: Seq<char>, d: nat) -> Seq<char>
    decreases d, 1int, 0int,
{
    if spec_is_digital(w) {
        w
    } else if is_small_entry(lower_of(w)) {
        lower_of(w)
    } else if spec_has_internal_slashes(w) {
        if d > 0 {
            spec_slash(w, (d - 1) as nat)
        } else {
            w
        }
    } else if spec_is_acronym(w) {
        w
    } else if spec_starts_with_bracket(w) {
        if d > 0 {
            seq!['('] + spec_titlecase_rec(w.skip(1), false, (d - 1) as nat)
        } else {
            w
        }
    } else if spec_has_internal_caps(w) {
        w
    } else {
        spec_ucfirst(w)
    }
}

/// A slash compound: each slash-separated term is title-cased on its own,
/// without re-running the yelling normalizer, and the terms are rejoined
/// with slashes.
pub open spec fn spec_slash(w: Seq<char>, d: nat) -> Seq<char>
    decreases d + 1, 0int, w.len(),
    via spec_slash_dec
{
    let k = run_len(w, not_slash_pred());
    if k == w.len() {
        spec_titlecase_rec(w, true, d)
    } else {
        spec_titlecase_rec(w.subrange(0, k), true, d) + seq!['/'] + spec_slash(w.skip(k + 1), d)
    }
}

#[via_fn]
proof fn spec_slash_dec(w: Seq<char>, d: nat) {
    lemma_run_len(w, not_slash_pred());
}

/// The empty phrase is a fixed point of the pipeline once normalized.
pub proof fn lemma_titlecase_rec_empty(d: nat)
    ensures
        spec_titlecase_rec(Seq::<char>::empty(), true, d) == Seq::<char>::empty(),
{
    let s = Seq::<char>::empty();
    assert(run_len(s, space_pred()) == 0);
    assert(s.skip(0) =~= s);
    assert(trim_end_spec(s) == s);
    assert(trim_spec(s) == s);
    assert(spec_rewrite(s, d) == s);
    assert(spec_fix_start(s) == Seq::<char>::empty());
    assert(spec_fix_end(Seq::<char>::empty()) == Seq::<char>::empty());
}

/// Splitting the empty word on slashes leaves it empty.
pub proof fn lemma_spec_slash_empty(d: nat)
    ensures
        spec_slash(Seq::<char>::empty(), d) == Seq::<char>::empty(),
{
    let s = Seq::<char>::empty();
    assert(run_len(s, not_slash_pred()) == 0);
    lemma_titlecase_rec_empty(d);
}

/// Removes leading and trailing whitespace.
pub fn trim_chars(s: &Vec<char>) -> (r: Vec<char>)
    ensures
        r@ == trim_spec(s@),
{
    let n = s.len();
    let mut b: usize = 0;
    while b < n && s[b].is_whitespace()
        invariant
            n == s@.len(),
            b <= n,
            forall|i: int| 0 <= i < b ==> is_space_char(s@[i]),
        decreases n - b,
    {
        b = b + 1;
    }
    proof {
        lemma_run_len_is(s@, space_pred(), b as int);
    }
    let mut e: usize = n;
    while e > b && s[e - 1].is_whitespace()
        invariant
            b <= e <= n,
            n == s@.len(),
            forall|i: int| e <= i < n ==> is_space_char(s@[i]),
        decreases e,
    {
        e = e - 1;
    }
    let r = copy_range(s, b, e);
    proof {
        let t = s@.skip(b as int);
        assert forall|i: int| (e - b) <= i < t.len() implies is_space_char(#[trigger] t[i]) by {
            assert(t[i] == s@[b + i]);
        }
        if e > b {
            assert(t[e - b - 1] == s@[e - 1]);
        }
        lemma_trim_end_is(t, e - b);
        assert(t.subrange(0, e - b) =~= s@.subrange(b as int, e as int));
    }
    r
}

/// Whether any character of the text is lowercase.
pub fn has_lower_chars(s: &Vec<char>) -> (r: bool)
    ensures
        r == spec_has_lower(s@),
{
    let mut i: usize = 0;
    while i < s.len()
        invariant
            i <= s@.len(),
            forall|k: int| 0 <= k < i ==> !is_lower_char(s@[k]),
        decreases s@.len() - i,
    {
        if s[i].is_lowercase() {
            return true;
        }
        i = i + 1;
    }
    false
}

/// Applies the whole pipeline to one phrase, with `d` as the remaining
/// recursion budget for nested phrases and slash compounds.
pub fn titlecase_chars(s: &Vec<char>, skip_lower: bool, d: usize) -> (r: Vec<char>)
    ensures
        r@ == spec_titlecase_rec(s@, skip_lower, d as nat),
    decreases d, 3int, 0int,
{
    let t = trim_chars(s);
    let l = if skip_lower {
        t
    } else {
        let yelling = !has_lower_chars(&t);
        if yelling {
            to_lowercase_chars(&t)
        } else {
            t
        }
    };
    let rw = rewrite_chars(&l, d);
    let f1 = fix_small_word_at_start(&rw);
    fix_small_word_at_end(&f1)
}

/// Rewrites every token of the text in place, copying separators verbatim.
pub fn rewrite_chars(s: &Vec<char>, d: usize) -> (r: Vec<char>)
    ensures
        r@ == spec_rewrite(s@, d as nat),
    decreases d, 2int, 0int,
{
    let n = s.len();
    let mut out: Vec<char> = Vec::new();
    let mut i: usize = 0;
    proof {
        assert(s@.skip(0) =~= s@);
        assert(out@ + spec_rewrite(s@, d as nat) =~= spec_rewrite(s@, d as nat));
    }
    while i < n
        invariant
            n == s@.len(),
            i <= n,
            spec_rewrite(s@, d as nat) == out@ + spec_rewrite(s@.skip(i as int), d as nat),
        decreases n - i,
    {
        let ghost out0 = out@;
        let ghost suf = s@.skip(i as int);
        if !word_char(s[i]) {
            out.push(s[i]);
            proof {
                assert(suf[0] == s@[i as int]);
                assert(suf.skip(1) =~= s@.skip(i as int + 1));
                assert(out0 + (seq![suf[0]] + spec_rewrite(s@.skip(i as int + 1), d as nat)) =~= (
                out0 + seq![suf[0]]) + spec_rewrite(s@.skip(i as int + 1), d as nat));
                assert(out@ =~= out0 + seq![suf[0]]);
            }
            i = i + 1;
        } else {
            let mut j: usize = i + 1;
            while j < n && word_char(s[j])
                invariant
                    n == s@.len(),
                    i < j <= n,
                    forall|k: int| i <= k < j ==> is_word_char(s@[k]),
                decreases n - j,
            {
                j = j + 1;
            }
            proof {
                assert forall|k: int| 0 <= k < j - i implies word_pred()(#[trigger] suf[k]) by {
                    assert(suf[k] == s@[i + k]);
                }
                if j - i < suf.len() {
                    assert(suf[j - i] == s@[j as int]);
                }
                lemma_run_len_is(suf, word_pred(), j - i);
            }
            let mut u: usize = i;
            while u < j && s[u] == '_'
                invariant
                    i <= u <= j <= n,
                    n == s@.len(),
                    forall|k: int| i <= k < u ==> s@[k] == '_',
                decreases j - u,
            {
                u = u + 1;
            }
            let lu: usize = if u == j {
                j - 1
            } else {
                u
            };
            let ghost run = suf.subrange(0, j - i);
            proof {
                assert forall|k: int| 0 <= k < u - i implies underscore_pred()(
                    #[trigger] run[k],
                ) by {
                    assert(run[k] == s@[i + k]);
                }
                if u - i < run.len() {
                    assert(run[u - i] == s@[u as int]);
                    assert(s@[u as int] != '_');
                }
                lemma_run_len_is(run, underscore_pred(), u - i);
                assert(lead_underscores(run) == lu - i);
            }
            push_range(&mut out, s, i, lu);
            let core = copy_range(s, lu, j);
            let pw = process_word(&core, d);
            push_range(&mut out, &pw, 0, pw.len());
            proof {
                let dd = d as nat;
                assert(run.subrange(0, lu - i) =~= s@.subrange(i as int, lu as int));
                assert(run.skip(lu - i) =~= s@.subrange(lu as int, j as int));
                assert(pw@.subrange(0, pw@.len() as int) =~= pw@);
                assert(suf.skip(j - i) =~= s@.skip(j as int));
                assert(spec_transform_run(run, dd) == s@.subrange(i as int, lu as int) + pw@);
                assert(out@ =~= out0 + (s@.subrange(i as int, lu as int) + pw@));
                assert(out0 + (spec_transform_run(run, dd) + spec_rewrite(s@.skip(j as int), dd))
                    =~= (out0 + spec_transform_run(run, dd)) + spec_rewrite(
                    s@.skip(j as int),
                    dd,
                ));
            }
            i = j;
        }
    }
    proof {
        assert(s@.skip(n as int) =~= Seq::<char>::empty());
        assert(spec_rewrite(Seq::<char>::empty(), d as nat) == Seq::<char>::empty());
        assert(out@ + Seq::<char>::empty() =~= out@);
    }
    out
}

/// Transforms one word according to its classification; `d` is the
/// remaining recursion budget.
pub fn process_word(w: &Vec<char>, d: usize) -> (r: Vec<char>)
    ensures
        r@ == spec_process_word(w@, d as nat),
    decreases d, 1int, 0int,
{
    if is_digital_resource(w) {
        let r = copy_range(w, 0, w.len());
        proof {
            assert(w@.subrange(0, w@.len() as int) =~= w@);
        }
        return r;
    }
    let lw = to_lowercase_chars(w);
    if is_small_word(&lw) {
        return lw;
    }
    if has_internal_slashes(w) {
        if d > 0 {
            return slash_compound(w, d - 1);
        } else {
            let r = copy_range(w, 0, w.len());
            proof {
                assert(w@.subrange(0, w@.len() as int) =~= w@);
            }
            return r;
        }
    }
    if is_acronym(w) {
        let r = copy_range(w, 0, w.len());
        proof {
            assert(w@.subrange(0, w@.len() as int) =~= w@);
        }
        return r;
    }
    if starts_with_bracket(w) {
        if d > 0 {
            let rest = copy_range(w, 1, w.len());
            let t = titlecase_chars(&rest, false, d - 1);
            let mut out: Vec<char> = Vec::new();
            out.push('(');
            push_range(&mut out, &t, 0, t.len());
            proof {
                assert(t@.subrange(0, t@.len() as int) =~= t@);
                assert(out@ =~= seq!['('] + t@);
            }
            return out;
        } else {
            let r = copy_range(w, 0, w.len());
            proof {
                assert(w@.subrange(0, w@.len() as int) =~= w@);
            }
            return r;
        }
    }
    if has_internal_caps(w) {
        let r = copy_range(w, 0, w.len());
        proof {
            assert(w@.subrange(0, w@.len() as int) =~= w@);
        }
        return r;
    }
    ucfirst(w)
}

/// Title-cases each slash-separated term of `w` and rejoins them.
fn slash_compound(w: &Vec<char>, dd: usize) -> (r: Vec<char>)
    ensures
        r@ == spec_slash(w@, dd as nat),
    decreases dd + 1, 0int, 0int,
{
    let n = w.len();
    let mut out: Vec<char> = Vec::new();
    let mut i: usize = 0;
    proof {
        assert(w@.skip(0) =~= w@);
        assert(out@ + spec_slash(w@, dd as nat) =~= spec_slash(w@, dd as nat));
    }
    while i < n
        invariant
            n == w@.len(),
            i <= n,
            spec_slash(w@, dd as nat) == out@ + spec_slash(w@.skip(i as int), dd as nat),
        decreases n - i,
    {
        let ghost out0 = out@;
        let ghost suf = w@.skip(i as int);
        let mut k: usize = i;
        while k < n && w[k] != '/'
            invariant
                i <= k <= n,
                n == w@.len(),
                forall|m: int| i <= m < k ==> w@[m] != '/',
            decreases n - k,
        {
            k = k + 1;
        }
        proof {
            assert forall|m: int| 0 <= m < k - i implies not_slash_pred()(#[trigger] suf[m]) by {
                assert(suf[m] == w@[i + m]);
            }
            if k - i < suf.len() {
                assert(suf[k - i] == w@[k as int]);
            }
            lemma_run_len_is(suf, not_slash_pred(), k - i);
        }
        let seg = copy_range(w, i, k);
        let t = titlecase_chars(&seg, true, dd);
        push_range(&mut out, &t, 0, t.len());
        proof {
            assert(t@.subrange(0, t@.len() as int) =~= t@);
            assert(seg@ =~= suf.subrange(0, k - i));
        }
        if k < n {
            out.push('/');
            proof {
                assert(suf.skip(k - i + 1) =~= w@.skip(k as int + 1));
                assert(out@ =~= out0 + (t@ + seq!['/']));
                assert(out0 + ((t@ + seq!['/']) + spec_slash(w@.skip(k as int + 1), dd as nat))
                    =~= (out0 + (t@ + seq!['/'])) + spec_slash(w@.skip(k as int + 1), dd as nat));
                assert(spec_titlecase_rec(suf.subrange(0, k - i), true, dd as nat) + seq!['/']
                    + spec_slash(w@.skip(k as int + 1), dd as nat) =~= (t@ + seq!['/'])
                    + spec_slash(w@.skip(k as int + 1), dd as nat));
            }
            i = k + 1;
        } else {
            proof {
                assert(seg@ =~= suf);
                assert(out@ =~= out0 + t@);
                assert(w@.skip(n as int) =~= Seq::<char>::empty());
                lemma_spec_slash_empty(dd as nat);
            }
            i = k;
        }
    }
    proof {
        lemma_spec_slash_empty(dd as nat);
        assert(w@.skip(n as int) =~= Seq::<char>::empty());
        assert(out@ + Seq::<char>::empty() =~= out@);
    }
    out
}

} // verus!
