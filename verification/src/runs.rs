//! Maximal character runs: the one scanning primitive every pattern of the
//! engine is built from.

use vstd::prelude::*;

verus! {

/// Length of the longest prefix of `s` whose characters all satisfy `p`.
pub open spec fn run_len(s: Seq<char>, p: spec_fn(char) -> bool) -> int
    decreases s.len(),
{
    if s.len() == 0 || !p(s[0]) {
        0
    } else {
        1 + run_len(s.skip(1), p)
    }
}

/// What a run is: a prefix of characters satisfying `p`, maximal.
pub proof fn lemma_run_len(s: Seq<char>, p: spec_fn(char) -> bool)
    ensures
        0 <= run_len(s, p) <= s.len(),
        forall|i: int| 0 <= i < run_len(s, p) ==> p(s[i]),
        run_len(s, p) < s.len() ==> !p(s[run_len(s, p)]),
    decreases s.len(),
{
    if s.len() == 0 || !p(s[0]) {
    } else {
        lemma_run_len(s.skip(1), p);
        assert forall|i: int| 0 <= i < run_len(s, p) implies p(s[i]) by {
            if i >= 1 {
                assert(s.skip(1)[i - 1] == s[i]);
            }
        }
        if run_len(s, p) < s.len() {
            assert(s.skip(1)[run_len(s, p) - 1] == s[run_len(s, p)]);
        }
    }
}

/// A prefix of characters satisfying `p` that is maximal is the run.
pub proof fn lemma_run_len_is(s: Seq<char>, p: spec_fn(char) -> bool, n: int)
    requires
        0 <= n <= s.len(),
        forall|i: int| 0 <= i < n ==> p(s[i]),
        n < s.len() ==> !p(s[n]),
    ensures
        run_len(s, p) == n,
    decreases s.len(),
{
    if n == 0 {
    } else {
        assert(p(s[0]));
        assert forall|i: int| 0 <= i < n - 1 implies p(s.skip(1)[i]) by {
            assert(s.skip(1)[i] == s[i + 1]);
        }
        if n - 1 < s.skip(1).len() {
            assert(s.skip(1)[n - 1] == s[n]);
        }
        lemma_run_len_is(s.skip(1), p, n - 1);
    }
}

} // verus!
