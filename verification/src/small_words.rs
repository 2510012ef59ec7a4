//! The fixed table of small words: articles, short prepositions and
//! conjunctions, and the abbreviations `v.` and `vs.`, which the style
//! lowercases except at phrase boundaries.

use vstd::prelude::*;

verus! {

/// Whether `w` is, letter for letter, one of the small words. The table is
/// matched against already-lowercased text; `v` and `vs` also accept an
/// optional trailing period.
pub open spec fn is_small_entry(w: Seq<char>) -> bool {
    ||| w == seq!['a']
    ||| w == seq!['a', 'n']
    ||| w == seq!['a', 'n', 'd']
    ||| w == seq!['a', 's']
    ||| w == seq!['a', 't']
    ||| w == seq!['b', 'u', 't']
    ||| w == seq!['b', 'y']
    ||| w == seq!['e', 'n']
    ||| w == seq!['f', 'o', 'r']
    ||| w == seq!['i', 'f']
    ||| w == seq!['i', 'n']
    ||| w == seq!['o', 'f']
    ||| w == seq!['o', 'n']
    ||| w == seq!['o', 'r']
    ||| w == seq!['t', 'h', 'e']
    ||| w == seq!['t', 'o']
    ||| w == seq!['v']
    ||| w == seq!['v', '.']
    ||| w == seq!['v', 'i', 'a']
    ||| w == seq!['v', 's']
    ||| w == seq!['v', 's', '.']
}

/// Whole-token test against the small-word table.
pub fn is_small_word(w: &Vec<char>) -> (r: bool)
    ensures
        r == is_small_entry(w@),
{
    let n = w.len();
    let r = if n == 1 {
        w[0] == 'a' || w[0] == 'v'
    } else if n == 2 {
        (w[0] == 'a' && (w[1] == 'n' || w[1] == 's' || w[1] == 't')) || (w[0] == 'b' && w[1]
            == 'y') || (w[0] == 'e' && w[1] == 'n') || (w[0] == 'i' && (w[1] == 'f' || w[1] == 'n'))
            || (w[0] == 'o' && (w[1] == 'f' || w[1] == 'n' || w[1] == 'r')) || (w[0] == 't' && w[1]
            == 'o') || (w[0] == 'v' && (w[1] == '.' || w[1] == 's'))
    } else if n == 3 {
        (w[0] == 'a' && w[1] == 'n' && w[2] == 'd') || (w[0] == 'b' && w[1] == 'u' && w[2] == 't')
            || (w[0] == 'f' && w[1] == 'o' && w[2] == 'r') || (w[0] == 't' && w[1] == 'h' && w[2]
            == 'e') || (w[0] == 'v' && w[1] == 'i' && w[2] == 'a') || (w[0] == 'v' && w[1] == 's'
            && w[2] == '.')
    } else {
        false
    };
    proof {
        let s = w@;
        if s.len() == 1 {
            if s[0] == 'a' {
                assert(s =~= seq!['a']);
            }
            if s[0] == 'v' {
                assert(s =~= seq!['v']);
            }
        }
        if s.len() == 2 {
            if s[0] == 'a' && s[1] == 'n' {
                assert(s =~= seq!['a', 'n']);
            }
            if s[0] == 'a' && s[1] == 's' {
                assert(s =~= seq!['a', 's']);
            }
            if s[0] == 'a' && s[1] == 't' {
                assert(s =~= seq!['a', 't']);
            }
            if s[0] == 'b' && s[1] == 'y' {
                assert(s =~= seq!['b', 'y']);
            }
            if s[0] == 'e' && s[1] == 'n' {
                assert(s =~= seq!['e', 'n']);
            }
            if s[0] == 'i' && s[1] == 'f' {
                assert(s =~= seq!['i', 'f']);
            }
            if s[0] == 'i' && s[1] == 'n' {
                assert(s =~= seq!['i', 'n']);
            }
            if s[0] == 'o' && s[1] == 'f' {
                assert(s =~= seq!['o', 'f']);
            }
            if s[0] == 'o' && s[1] == 'n' {
                assert(s =~= seq!['o', 'n']);
            }
            if s[0] == 'o' && s[1] == 'r' {
                assert(s =~= seq!['o', 'r']);
            }
            if s[0] == 't' && s[1] == 'o' {
                assert(s =~= seq!['t', 'o']);
            }
            if s[0] == 'v' && s[1] == '.' {
                assert(s =~= seq!['v', '.']);
            }
            if s[0] == 'v' && s[1] == 's' {
                assert(s =~= seq!['v', 's']);
            }
        }
        if s.len() == 3 {
            if s[0] == 'a' && s[1] == 'n' && s[2] == 'd' {
                assert(s =~= seq!['a', 'n', 'd']);
            }
            if s[0] == 'b' && s[1] == 'u' && s[2] == 't' {
                assert(s =~= seq!['b', 'u', 't']);
            }
            if s[0] == 'f' && s[1] == 'o' && s[2] == 'r' {
                assert(s =~= seq!['f', 'o', 'r']);
            }
            if s[0] == 't' && s[1] == 'h' && s[2] == 'e' {
                assert(s =~= seq!['t', 'h', 'e']);
            }
            if s[0] == 'v' && s[1] == 'i' && s[2] == 'a' {
                assert(s =~= seq!['v', 'i', 'a']);
            }
            if s[0] == 'v' && s[1] == 's' && s[2] == '.' {
                assert(s =~= seq!['v', 's', '.']);
            }
        }
    }
    r
}

} // verus!
