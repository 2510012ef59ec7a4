//! The two boundary correctors: after rewriting, a small word that opens
//! the title, follows a sentence terminator, or opens a quoted or bracketed
//! sub-phrase is re-capitalized; so is one that closes the title or a
//! sub-phrase. Both passes scan for the leftmost occurrence, rewrite it,
//! and continue after it; they only ever raise the first letter of a small
//! word, never lower anything.

use vstd::prelude::*;

use crate::classify::{spec_ucfirst, ucfirst};
use crate::runs::{lemma_run_len, lemma_run_len_is, run_len};
use crate::unicode::is_boundary_word_char;
use crate::{copy_range, push_range};

verus! {

/// ASCII punctuation.
pub open spec fn is_ascii_punct(c: char) -> bool {
    (0x21 <= c as u32 && c as u32 <= 0x2f) || (0x3a <= c as u32 && c as u32 <= 0x40) || (0x5b <= c
        as u32 && c as u32 <= 0x60) || (0x7b <= c as u32 && c as u32 <= 0x7e)
}

/// The punctuation run, as a shared predicate term.
pub open spec fn punct_pred() -> spec_fn(char) -> bool {
    |c: char| is_ascii_punct(c)
}

/// The plain-space run, as a shared predicate term.
pub open spec fn space20_pred() -> spec_fn(char) -> bool {
    |c: char| c == ' '
}

/// A sentence terminator: a sub-sentence may start after one of these.
pub open spec fn is_sentence_end(c: char) -> bool {
    c == ':' || c == '.' || c == ';' || c == '?' || c == '!'
}

/// An opening quote, parenthesis or bracket: a sub-phrase starts after one.
pub open spec fn is_open_quote(c: char) -> bool {
    c == '\'' || c == '"' || c == '\u{201C}' || c == '\u{2018}' || c == '(' || c == '['
}

/// A closing quote, parenthesis or bracket: a sub-phrase ends before one.
pub open spec fn is_close_quote(c: char) -> bool {
    c == '\'' || c == '"' || c == '\u{2019}' || c == '\u{201D}' || c == ')' || c == ']'
}

/// Whether position `i` holds a word character (out of range counts as no).
pub open spec fn bchar_at(s: Seq<char>, i: int) -> bool {
    0 <= i < s.len() && is_boundary_word_char(s[i])
}

/// A word boundary between positions `i - 1` and `i`: exactly one side is a
/// word character.
pub open spec fn word_boundary(s: Seq<char>, i: int) -> bool {
    bchar_at(s, i - 1) != bchar_at(s, i)
}

/// Whether the characters `w` stand in `s` at position `j`.
pub open spec fn entry_at(s: Seq<char>, j: int, w: Seq<char>) -> bool {
    0 <= j && j + w.len() <= s.len() && s.subrange(j, j + w.len()) == w
}

/// The small-word alternation at position `j`, each entry followed by a
/// word boundary, tried in table order with `v.` before `v` and `vs.`
/// before `vs`; yields the end of the matched word.
pub open spec fn small_start_match(s: Seq<char>, j: int) -> Option<int> {
    if entry_at(s, j, seq!['a']) && word_boundary(s, j + 1) {
        Some(j + 1)
    } else if entry_at(s, j, seq!['a', 'n']) && word_boundary(s, j + 2) {
        Some(j + 2)
    } else if entry_at(s, j, seq!['a', 'n', 'd']) && word_boundary(s, j + 3) {
        Some(j + 3)
    } else if entry_at(s, j, seq!['a', 's']) && word_boundary(s, j + 2) {
        Some(j + 2)
    } else if entry_at(s, j, seq!['a', 't']) && word_boundary(s, j + 2) {
        Some(j + 2)
    } else if entry_at(s, j, seq!['b', 'u', 't']) && word_boundary(s, j + 3) {
        Some(j + 3)
    } else if entry_at(s, j, seq!['b', 'y']) && word_boundary(s, j + 2) {
        Some(j + 2)
    } else if entry_at(s, j, seq!['e', 'n']) && word_boundary(s, j + 2) {
        Some(j + 2)
    } else if entry_at(s, j, seq!['f', 'o', 'r']) && word_boundary(s, j + 3) {
        Some(j + 3)
    } else if entry_at(s, j, seq!['i', 'f']) && word_boundary(s, j + 2) {
        Some(j + 2)
    } else if entry_at(s, j, seq!['i', 'n']) && word_boundary(s, j + 2) {
        Some(j + 2)
    } else if entry_at(s, j, seq!['o', 'f']) && word_boundary(s, j + 2) {
        Some(j + 2)
    } else if entry_at(s, j, seq!['o', 'n']) && word_boundary(s, j + 2) {
        Some(j + 2)
    } else if entry_at(s, j, seq!['o', 'r']) && word_boundary(s, j + 2) {
        Some(j + 2)
    } else if entry_at(s, j, seq!['t', 'h', 'e']) && word_boundary(s, j + 3) {
        Some(j + 3)
    } else if entry_at(s, j, seq!['t', 'o']) && word_boundary(s, j + 2) {
        Some(j + 2)
    } else if entry_at(s, j, seq!['v', '.']) && word_boundary(s, j + 2) {
        Some(j + 2)
    } else if entry_at(s, j, seq!['v']) && word_boundary(s, j + 1) {
        Some(j + 1)
    } else if entry_at(s, j, seq!['v', 'i', 'a']) && word_boundary(s, j + 3) {
        Some(j + 3)
    } else if entry_at(s, j, seq!['v', 's', '.']) && word_boundary(s, j + 3) {
        Some(j + 3)
    } else if entry_at(s, j, seq!['v', 's']) && word_boundary(s, j + 2) {
        Some(j + 2)
    } else {
        None
    }
}

/// A matched small word spans at least one character and stays in bounds.
pub proof fn lemma_small_start_match_bounds(s: Seq<char>, j: int)
    ensures
        small_start_match(s, j) matches Some(e) ==> 0 <= j && j + 1 <= e <= s.len(),
{
}

/// The start-corrector pattern at position `i`: the very start of the
/// string followed by any punctuation, a sentence terminator followed by
/// spaces, or a space and an opening quote followed by spaces — then a
/// small word. Yields the start and end of the small word.
pub open spec fn fs_match_at(s: Seq<char>, i: int) -> Option<(int, int)> {
    let a: Option<(int, int)> = if i == 0 {
        let j = run_len(s, punct_pred());
        match small_start_match(s, j) {
            Some(e) => Some((j, e)),
            None => None,
        }
    } else {
        None
    };
    if a is Some {
        a
    } else {
        let b: Option<(int, int)> = if 0 <= i < s.len() && is_sentence_end(s[i]) && run_len(
            s.skip(i + 1),
            space20_pred(),
        ) >= 1 {
            let j = i + 1 + run_len(s.skip(i + 1), space20_pred());
            match small_start_match(s, j) {
                Some(e) => Some((j, e)),
                None => None,
            }
        } else {
            None
        };
        if b is Some {
            b
        } else {
            if 0 <= i && i + 1 < s.len() && s[i] == ' ' && is_open_quote(s[i + 1]) {
                let j = i + 2 + run_len(s.skip(i + 2), space20_pred());
                match small_start_match(s, j) {
                    Some(e) => Some((j, e)),
                    None => None,
                }
            } else {
                None
            }
        }
    }
}

/// A start-corrector match begins no earlier than `i` and ends past it.
pub proof fn lemma_fs_match_bounds(s: Seq<char>, i: int)
    ensures
        fs_match_at(s, i) matches Some((j, e)) ==> i <= j && j < e <= s.len(),
{
    if i == 0 {
        lemma_run_len(s, punct_pred());
        lemma_small_start_match_bounds(s, run_len(s, punct_pred()));
    }
    if 0 <= i < s.len() && is_sentence_end(s[i]) {
        lemma_run_len(s.skip(i + 1), space20_pred());
        lemma_small_start_match_bounds(s, i + 1 + run_len(s.skip(i + 1), space20_pred()));
    }
    if 0 <= i && i + 1 < s.len() && s[i] == ' ' && is_open_quote(s[i + 1]) {
        lemma_run_len(s.skip(i + 2), space20_pred());
        lemma_small_start_match_bounds(s, i + 2 + run_len(s.skip(i + 2), space20_pred()));
    }
}

/// One left-to-right pass of the start corrector over `s` from `pos` on:
/// the leftmost match is rewritten, with the small word's first letter
/// capitalized, and the scan continues right after the word.
pub open spec fn fs_scan(s: Seq<char>, pos: int) -> Seq<char>
    decreases s.len() - pos,
    via fs_scan_dec
{
    if pos < 0 || pos >= s.len() {
        Seq::empty()
    } else {
        match fs_match_at(s, pos) {
            Some((j, e)) => s.subrange(pos, j) + spec_ucfirst(s.subrange(j, e)) + fs_scan(s, e),
            None => seq![s[pos]] + fs_scan(s, pos + 1),
        }
    }
}

#[via_fn]
proof fn fs_scan_dec(s: Seq<char>, pos: int) {
    lemma_fs_match_bounds(s, pos);
}

/// The start corrector: capitalizes small words at the start of the title
/// and of quoted, bracketed or sentence-terminated sub-phrases.
pub open spec fn spec_fix_start(s: Seq<char>) -> Seq<char> {
    fs_scan(s, 0)
}

/// What may follow a small word for the end corrector: punctuation running
/// to the very end of the string, or a closing quote and a space. Yields
/// the end of the whole match.
pub open spec fn after_end_group(s: Seq<char>, k: int) -> Option<int> {
    if 0 <= k <= s.len() && run_len(s.skip(k), punct_pred()) == s.len() - k {
        Some(s.len() as int)
    } else if 0 <= k && k + 1 < s.len() && is_close_quote(s[k]) && s[k + 1] == ' ' {
        Some(k + 2)
    } else {
        None
    }
}

/// The small-word alternation at position `i`, each entry followed by an
/// end group, in table order with `v.` before `v` and `vs.` before `vs`;
/// yields the end of the whole match.
pub open spec fn small_end_match(s: Seq<char>, i: int) -> Option<int> {
    if entry_at(s, i, seq!['a']) && after_end_group(s, i + 1) is Some {
        after_end_group(s, i + 1)
    } else if entry_at(s, i, seq!['a', 'n']) && after_end_group(s, i + 2) is Some {
        after_end_group(s, i + 2)
    } else if entry_at(s, i, seq!['a', 'n', 'd']) && after_end_group(s, i + 3) is Some {
        after_end_group(s, i + 3)
    } else if entry_at(s, i, seq!['a', 's']) && after_end_group(s, i + 2) is Some {
        after_end_group(s, i + 2)
    } else if entry_at(s, i, seq!['a', 't']) && after_end_group(s, i + 2) is Some {
        after_end_group(s, i + 2)
    } else if entry_at(s, i, seq!['b', 'u', 't']) && after_end_group(s, i + 3) is Some {
        after_end_group(s, i + 3)
    } else if entry_at(s, i, seq!['b', 'y']) && after_end_group(s, i + 2) is Some {
        after_end_group(s, i + 2)
    } else if entry_at(s, i, seq!['e', 'n']) && after_end_group(s, i + 2) is Some {
        after_end_group(s, i + 2)
    } else if entry_at(s, i, seq!['f', 'o', 'r']) && after_end_group(s, i + 3) is Some {
        after_end_group(s, i + 3)
    } else if entry_at(s, i, seq!['i', 'f']) && after_end_group(s, i + 2) is Some {
        after_end_group(s, i + 2)
    } else if entry_at(s, i, seq!['i', 'n']) && after_end_group(s, i + 2) is Some {
        after_end_group(s, i + 2)
    } else if entry_at(s, i, seq!['o', 'f']) && after_end_group(s, i + 2) is Some {
        after_end_group(s, i + 2)
    } else if entry_at(s, i, seq!['o', 'n']) && after_end_group(s, i + 2) is Some {
        after_end_group(s, i + 2)
    } else if entry_at(s, i, seq!['o', 'r']) && after_end_group(s, i + 2) is Some {
        after_end_group(s, i + 2)
    } else if entry_at(s, i, seq!['t', 'h', 'e']) && after_end_group(s, i + 3) is Some {
        after_end_group(s, i + 3)
    } else if entry_at(s, i, seq!['t', 'o']) && after_end_group(s, i + 2) is Some {
        after_end_group(s, i + 2)
    } else if entry_at(s, i, seq!['v', '.']) && after_end_group(s, i + 2) is Some {
        after_end_group(s, i + 2)
    } else if entry_at(s, i, seq!['v']) && after_end_group(s, i + 1) is Some {
        after_end_group(s, i + 1)
    } else if entry_at(s, i, seq!['v', 'i', 'a']) && after_end_group(s, i + 3) is Some {
        after_end_group(s, i + 3)
    } else if entry_at(s, i, seq!['v', 's', '.']) && after_end_group(s, i + 3) is Some {
        after_end_group(s, i + 3)
    } else if entry_at(s, i, seq!['v', 's']) && after_end_group(s, i + 2) is Some {
        after_end_group(s, i + 2)
    } else {
        None
    }
}

/// An end group never ends before the position it starts at.
pub proof fn lemma_after_end_group_bounds(s: Seq<char>, k: int)
    ensures
        after_end_group(s, k) matches Some(e) ==> k <= e <= s.len(),
{
    if 0 <= k <= s.len() && run_len(s.skip(k), punct_pred()) == s.len() - k {
    }
}

/// An end-corrector match spans at least the small word's first character.
pub proof fn lemma_small_end_match_bounds(s: Seq<char>, i: int)
    ensures
        small_end_match(s, i) matches Some(e) ==> 0 <= i && i < e <= s.len(),
{
    lemma_after_end_group_bounds(s, i + 1);
    lemma_after_end_group_bounds(s, i + 2);
    lemma_after_end_group_bounds(s, i + 3);
}

/// The end-corrector pattern at position `i`: a word boundary, a small
/// word, and an end group.
pub open spec fn fe_match_at(s: Seq<char>, i: int) -> Option<int> {
    if word_boundary(s, i) {
        small_end_match(s, i)
    } else {
        None
    }
}

/// One left-to-right pass of the end corrector over `s` from `pos` on.
pub open spec fn fe_scan(s: Seq<char>, pos: int) -> Seq<char>
    decreases s.len() - pos,
    via fe_scan_dec
{
    if pos < 0 || pos >= s.len() {
        Seq::empty()
    } else {
        match fe_match_at(s, pos) {
            Some(e) => crate::unicode::upper_of(s[pos]) + s.subrange(pos + 1, e) + fe_scan(s, e),
            None => seq![s[pos]] + fe_scan(s, pos + 1),
        }
    }
}

#[via_fn]
proof fn fe_scan_dec(s: Seq<char>, pos: int) {
    lemma_small_end_match_bounds(s, pos);
}

/// The end corrector: capitalizes small words at the end of the title and
/// of quoted or bracketed sub-phrases.
pub open spec fn spec_fix_end(s: Seq<char>) -> Seq<char> {
    fe_scan(s, 0)
}

/// Executable test for [`is_ascii_punct`].
fn punct_char(c: char) -> (r: bool)
    ensures
        r == is_ascii_punct(c),
{
    (0x21 <= c as u32 && c as u32 <= 0x2f) || (0x3a <= c as u32 && c as u32 <= 0x40) || (0x5b <= c
        as u32 && c as u32 <= 0x60) || (0x7b <= c as u32 && c as u32 <= 0x7e)
}

/// Executable test for a word boundary between `i - 1` and `i`.
fn wb(s: &Vec<char>, i: usize) -> (r: bool)
    requires
        i <= s@.len(),
    ensures
        r == word_boundary(s@, i as int),
{
    let before = i >= 1 && crate::unicode::boundary_word_char(s[i - 1]);
    let after = i < s.len() && crate::unicode::boundary_word_char(s[i]);
    before != after
}

/// Whether the single character `c0` stands in `s` at `j`.
fn entry1(s: &Vec<char>, j: usize, c0: char) -> (r: bool)
    ensures
        r == entry_at(s@, j as int, seq![c0]),
{
    let r = j < s.len() && s[j] == c0;
    proof {
        if r {
            assert(s@.subrange(j as int, j as int + 1) =~= seq![c0]);
        } else if j as int + 1 <= s@.len() {
            assert(s@.subrange(j as int, j as int + 1)[0] == s@[j as int]);
        }
    }
    r
}

/// Whether the characters `c0 c1` stand in `s` at `j`.
fn entry2(s: &Vec<char>, j: usize, c0: char, c1: char) -> (r: bool)
    ensures
        r == entry_at(s@, j as int, seq![c0, c1]),
{
    let r = j < s.len() && s.len() - j >= 2 && s[j] == c0 && s[j + 1] == c1;
    proof {
        if r {
            assert(s@.subrange(j as int, j as int + 2) =~= seq![c0, c1]);
        } else if j as int + 2 <= s@.len() {
            assert(s@.subrange(j as int, j as int + 2)[0] == s@[j as int]);
            assert(s@.subrange(j as int, j as int + 2)[1] == s@[j as int + 1]);
        }
    }
    r
}

/// Whether the characters `c0 c1 c2` stand in `s` at `j`.
fn entry3(s: &Vec<char>, j: usize, c0: char, c1: char, c2: char) -> (r: bool)
    ensures
        r == entry_at(s@, j as int, seq![c0, c1, c2]),
{
    let r = j < s.len() && s.len() - j >= 3 && s[j] == c0 && s[j + 1] == c1 && s[j + 2] == c2;
    proof {
        if r {
            assert(s@.subrange(j as int, j as int + 3) =~= seq![c0, c1, c2]);
        } else if j as int + 3 <= s@.len() {
            assert(s@.subrange(j as int, j as int + 3)[0] == s@[j as int]);
            assert(s@.subrange(j as int, j as int + 3)[1] == s@[j as int + 1]);
            assert(s@.subrange(j as int, j as int + 3)[2] == s@[j as int + 2]);
        }
    }
    r
}

/// Scans the punctuation run starting at `from`; returns its end.
fn scan_punct(s: &Vec<char>, from: usize) -> (r: usize)
    requires
        from <= s@.len(),
    ensures
        from <= r <= s@.len(),
        r - from == run_len(s@.skip(from as int), punct_pred()),
{
    let mut i: usize = from;
    while i < s.len() && punct_char(s[i])
        invariant
            from <= i <= s@.len(),
            forall|k: int| from <= k < i ==> is_ascii_punct(s@[k]),
        decreases s@.len() - i,
    {
        i = i + 1;
    }
    proof {
        assert forall|k: int| 0 <= k < i - from implies punct_pred()(
            #[trigger] s@.skip(from as int)[k],
        ) by {
            assert(s@.skip(from as int)[k] == s@[from + k]);
        }
        if (i - from) < s@.skip(from as int).len() {
            assert(s@.skip(from as int)[i - from] == s@[i as int]);
        }
        lemma_run_len_is(s@.skip(from as int), punct_pred(), i - from);
    }
    i
}

/// Scans the plain-space run starting at `from`; returns its end.
fn scan_space(s: &Vec<char>, from: usize) -> (r: usize)
    requires
        from <= s@.len(),
    ensures
        from <= r <= s@.len(),
        r - from == run_len(s@.skip(from as int), space20_pred()),
{
    let mut i: usize = from;
    while i < s.len() && s[i] == ' '
        invariant
            from <= i <= s@.len(),
            forall|k: int| from <= k < i ==> s@[k] == ' ',
        decreases s@.len() - i,
    {
        i = i + 1;
    }
    proof {
        assert forall|k: int| 0 <= k < i - from implies space20_pred()(
            #[trigger] s@.skip(from as int)[k],
        ) by {
            assert(s@.skip(from as int)[k] == s@[from + k]);
        }
        if (i - from) < s@.skip(from as int).len() {
            assert(s@.skip(from as int)[i - from] == s@[i as int]);
        }
        lemma_run_len_is(s@.skip(from as int), space20_pred(), i - from);
    }
    i
}

/// Matches the small-word alternation with a trailing word boundary at `j`.
fn small_start_match_at(s: &Vec<char>, j: usize) -> (r: Option<usize>)
    requires
        j <= s@.len(),
    ensures
        r matches Some(e) ==> small_start_match(s@, j as int) == Some(e as int),
        r is None ==> small_start_match(s@, j as int) is None,
{
    proof {
        vstd::std_specs::vec::axiom_spec_len(s);
    }
    if entry1(s, j, 'a') && wb(s, j + 1) {
        Some(j + 1)
    } else if entry2(s, j, 'a', 'n') && wb(s, j + 2) {
        Some(j + 2)
    } else if entry3(s, j, 'a', 'n', 'd') && wb(s, j + 3) {
        Some(j + 3)
    } else if entry2(s, j, 'a', 's') && wb(s, j + 2) {
        Some(j + 2)
    } else if entry2(s, j, 'a', 't') && wb(s, j + 2) {
        Some(j + 2)
    } else if entry3(s, j, 'b', 'u', 't') && wb(s, j + 3) {
        Some(j + 3)
    } else if entry2(s, j, 'b', 'y') && wb(s, j + 2) {
        Some(j + 2)
    } else if entry2(s, j, 'e', 'n') && wb(s, j + 2) {
        Some(j + 2)
    } else if entry3(s, j, 'f', 'o', 'r') && wb(s, j + 3) {
        Some(j + 3)
    } else if entry2(s, j, 'i', 'f') && wb(s, j + 2) {
        Some(j + 2)
    } else if entry2(s, j, 'i', 'n') && wb(s, j + 2) {
        Some(j + 2)
    } else if entry2(s, j, 'o', 'f') && wb(s, j + 2) {
        Some(j + 2)
    } else if entry2(s, j, 'o', 'n') && wb(s, j + 2) {
        Some(j + 2)
    } else if entry2(s, j, 'o', 'r') && wb(s, j + 2) {
        Some(j + 2)
    } else if entry3(s, j, 't', 'h', 'e') && wb(s, j + 3) {
        Some(j + 3)
    } else if entry2(s, j, 't', 'o') && wb(s, j + 2) {
        Some(j + 2)
    } else if entry2(s, j, 'v', '.') && wb(s, j + 2) {
        Some(j + 2)
    } else if entry1(s, j, 'v') && wb(s, j + 1) {
        Some(j + 1)
    } else if entry3(s, j, 'v', 'i', 'a') && wb(s, j + 3) {
        Some(j + 3)
    } else if entry3(s, j, 'v', 's', '.') && wb(s, j + 3) {
        Some(j + 3)
    } else if entry2(s, j, 'v', 's') && wb(s, j + 2) {
        Some(j + 2)
    } else {
        None
    }
}

/// Executable test for [`is_sentence_end`].
fn sentence_end_char(c: char) -> (r: bool)
    ensures
        r == is_sentence_end(c),
{
    c == ':' || c == '.' || c == ';' || c == '?' || c == '!'
}

/// Executable test for [`is_open_quote`].
fn open_quote_char(c: char) -> (r: bool)
    ensures
        r == is_open_quote(c),
{
    c == '\'' || c == '"' || c == '\u{201C}' || c == '\u{2018}' || c == '(' || c == '['
}

/// Executable test for [`is_close_quote`].
fn close_quote_char(c: char) -> (r: bool)
    ensures
        r == is_close_quote(c),
{
    c == '\'' || c == '"' || c == '\u{2019}' || c == '\u{201D}' || c == ')' || c == ']'
}

/// Finds the start-corrector match at position `i`, if any.
fn find_start_match(s: &Vec<char>, i: usize) -> (r: Option<(usize, usize)>)
    requires
        i < s@.len(),
    ensures
        r matches Some((j, e)) ==> fs_match_at(s@, i as int) == Some((j as int, e as int)),
        r is None ==> fs_match_at(s@, i as int) is None,
{
    proof {
        vstd::std_specs::vec::axiom_spec_len(s);
    }
    if i == 0 {
        let j = scan_punct(s, 0);
        proof {
            assert(s@.skip(0) =~= s@);
        }
        match small_start_match_at(s, j) {
            Some(e) => {
                return Some((j, e));
            },
            None => {},
        }
    }
    if sentence_end_char(s[i]) {
        let j = scan_space(s, i + 1);
        if j > i + 1 {
            match small_start_match_at(s, j) {
                Some(e) => {
                    return Some((j, e));
                },
                None => {},
            }
        }
    }
    if i + 1 < s.len() && s[i] == ' ' && open_quote_char(s[i + 1]) {
        let j = scan_space(s, i + 2);
        match small_start_match_at(s, j) {
            Some(e) => {
                return Some((j, e));
            },
            None => {},
        }
    }
    None
}

/// Capitalizes every small word that opens the title or a sub-phrase.
pub fn fix_small_word_at_start(t: &Vec<char>) -> (r: Vec<char>)
    ensures
        r@ == spec_fix_start(t@),
{
    let mut out: Vec<char> = Vec::new();
    let mut pos: usize = 0;
    proof {
        assert(out@ + fs_scan(t@, 0) =~= fs_scan(t@, 0));
    }
    while pos < t.len()
        invariant
            pos <= t@.len(),
            spec_fix_start(t@) == out@ + fs_scan(t@, pos as int),
        decreases t@.len() - pos,
    {
        let ghost out0 = out@;
        match find_start_match(t, pos) {
            Some((j, e)) => {
                proof {
                    lemma_fs_match_bounds(t@, pos as int);
                }
                push_range(&mut out, t, pos, j);
                let g2 = copy_range(t, j, e);
                let u = ucfirst(&g2);
                push_range(&mut out, &u, 0, u.len());
                proof {
                    assert(u@.subrange(0, u@.len() as int) =~= u@);
                    assert(out@ =~= out0 + t@.subrange(pos as int, j as int) + spec_ucfirst(
                        t@.subrange(j as int, e as int),
                    ));
                    assert(out0 + (t@.subrange(pos as int, j as int) + spec_ucfirst(
                        t@.subrange(j as int, e as int),
                    ) + fs_scan(t@, e as int)) =~= (out0 + t@.subrange(pos as int, j as int)
                        + spec_ucfirst(t@.subrange(j as int, e as int))) + fs_scan(t@, e as int));
                }
                pos = e;
            },
            None => {
                out.push(t[pos]);
                proof {
                    assert(out@ =~= out0 + seq![t@[pos as int]]);
                    assert(out0 + (seq![t@[pos as int]] + fs_scan(t@, pos + 1)) =~= (out0
                        + seq![t@[pos as int]]) + fs_scan(t@, pos + 1));
                }
                pos = pos + 1;
            },
        }
    }
    proof {
        assert(out@ + fs_scan(t@, pos as int) =~= out@);
    }
    out
}

/// Matches the end group after a small word ending at `k`, if any.
fn after_end_group_at(s: &Vec<char>, k: usize) -> (r: Option<usize>)
    requires
        k <= s@.len(),
    ensures
        r matches Some(e) ==> after_end_group(s@, k as int) == Some(e as int),
        r is None ==> after_end_group(s@, k as int) is None,
{
    proof {
        vstd::std_specs::vec::axiom_spec_len(s);
    }
    let m = scan_punct(s, k);
    if m == s.len() {
        return Some(m);
    }
    if k < s.len() && s.len() - k >= 2 && close_quote_char(s[k]) && s[k + 1] == ' ' {
        return Some(k + 2);
    }
    None
}

/// Matches the small-word alternation with a trailing end group at `i`.
fn small_end_match_at(s: &Vec<char>, i: usize) -> (r: Option<usize>)
    requires
        i <= s@.len(),
    ensures
        r matches Some(e) ==> small_end_match(s@, i as int) == Some(e as int),
        r is None ==> small_end_match(s@, i as int) is None,
{
    proof {
        vstd::std_specs::vec::axiom_spec_len(s);
    }
    if entry1(s, i, 'a') {
        if let Some(e) = after_end_group_at(s, i + 1) {
            return Some(e);
        }
    }
    if entry2(s, i, 'a', 'n') {
        if let Some(e) = after_end_group_at(s, i + 2) {
            return Some(e);
        }
    }
    if entry3(s, i, 'a', 'n', 'd') {
        if let Some(e) = after_end_group_at(s, i + 3) {
            return Some(e);
        }
    }
    if entry2(s, i, 'a', 's') {
        if let Some(e) = after_end_group_at(s, i + 2) {
            return Some(e);
        }
    }
    if entry2(s, i, 'a', 't') {
        if let Some(e) = after_end_group_at(s, i + 2) {
            return Some(e);
        }
    }
    if entry3(s, i, 'b', 'u', 't') {
        if let Some(e) = after_end_group_at(s, i + 3) {
            return Some(e);
        }
    }
    if entry2(s, i, 'b', 'y') {
        if let Some(e) = after_end_group_at(s, i + 2) {
            return Some(e);
        }
    }
    if entry2(s, i, 'e', 'n') {
        if let Some(e) = after_end_group_at(s, i + 2) {
            return Some(e);
        }
    }
    if entry3(s, i, 'f', 'o', 'r') {
        if let Some(e) = after_end_group_at(s, i + 3) {
            return Some(e);
        }
    }
    if entry2(s, i, 'i', 'f') {
        if let Some(e) = after_end_group_at(s, i + 2) {
            return Some(e);
        }
    }
    if entry2(s, i, 'i', 'n') {
        if let Some(e) = after_end_group_at(s, i + 2) {
            return Some(e);
        }
    }
    if entry2(s, i, 'o', 'f') {
        if let Some(e) = after_end_group_at(s, i + 2) {
            return Some(e);
        }
    }
    if entry2(s, i, 'o', 'n') {
        if let Some(e) = after_end_group_at(s, i + 2) {
            return Some(e);
        }
    }
    if entry2(s, i, 'o', 'r') {
        if let Some(e) = after_end_group_at(s, i + 2) {
            return Some(e);
        }
    }
    if entry3(s, i, 't', 'h', 'e') {
        if let Some(e) = after_end_group_at(s, i + 3) {
            return Some(e);
        }
    }
    if entry2(s, i, 't', 'o') {
        if let Some(e) = after_end_group_at(s, i + 2) {
            return Some(e);
        }
    }
    if entry2(s, i, 'v', '.') {
        if let Some(e) = after_end_group_at(s, i + 2) {
            return Some(e);
        }
    }
    if entry1(s, i, 'v') {
        if let Some(e) = after_end_group_at(s, i + 1) {
            return Some(e);
        }
    }
    if entry3(s, i, 'v', 'i', 'a') {
        if let Some(e) = after_end_group_at(s, i + 3) {
            return Some(e);
        }
    }
    if entry3(s, i, 'v', 's', '.') {
        if let Some(e) = after_end_group_at(s, i + 3) {
            return Some(e);
        }
    }
    if entry2(s, i, 'v', 's') {
        if let Some(e) = after_end_group_at(s, i + 2) {
            return Some(e);
        }
    }
    None
}

/// Finds the end-corrector match at position `i`, if any.
fn find_end_match(s: &Vec<char>, i: usize) -> (r: Option<usize>)
    requires
        i < s@.len(),
    ensures
        r matches Some(e) ==> fe_match_at(s@, i as int) == Some(e as int),
        r is None ==> fe_match_at(s@, i as int) is None,
{
    if wb(s, i) {
        small_end_match_at(s, i)
    } else {
        None
    }
}

/// Capitalizes every small word that closes the title or a sub-phrase.
pub fn fix_small_word_at_end(t: &Vec<char>) -> (r: Vec<char>)
    ensures
        r@ == spec_fix_end(t@),
{
    let mut out: Vec<char> = Vec::new();
    let mut pos: usize = 0;
    proof {
        assert(out@ + fe_scan(t@, 0) =~= fe_scan(t@, 0));
    }
    while pos < t.len()
        invariant
            pos <= t@.len(),
            spec_fix_end(t@) == out@ + fe_scan(t@, pos as int),
        decreases t@.len() - pos,
    {
        let ghost out0 = out@;
        match find_end_match(t, pos) {
            Some(e) => {
                proof {
                    lemma_small_end_match_bounds(t@, pos as int);
                }
                let first = crate::unicode::char_to_uppercase(t[pos]);
                push_range(&mut out, &first, 0, first.len());
                push_range(&mut out, t, pos + 1, e);
                proof {
                    assert(first@.subrange(0, first@.len() as int) =~= first@);
                    assert(out@ =~= out0 + crate::unicode::upper_of(t@[pos as int]) + t@.subrange(
                        pos + 1,
                        e as int,
                    ));
                    assert(out0 + (crate::unicode::upper_of(t@[pos as int]) + t@.subrange(
                        pos + 1,
                        e as int,
                    ) + fe_scan(t@, e as int)) =~= (out0 + crate::unicode::upper_of(
                        t@[pos as int],
                    ) + t@.subrange(pos + 1, e as int)) + fe_scan(t@, e as int));
                }
                pos = e;
            },
            None => {
                out.push(t[pos]);
                proof {
                    assert(out@ =~= out0 + seq![t@[pos as int]]);
                    assert(out0 + (seq![t@[pos as int]] + fe_scan(t@, pos + 1)) =~= (out0
                        + seq![t@[pos as int]]) + fe_scan(t@, pos + 1));
                }
                pos = pos + 1;
            },
        }
    }
    proof {
        assert(out@ + fe_scan(t@, pos as int) =~= out@);
    }
    out
}

} // verus!
