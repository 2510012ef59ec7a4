//! The Unicode-dependent ground layer: character classes and case mappings.
//!
//! Everything the engine knows about Unicode comes from `std`, through the
//! trusted items below. Each table-driven result is given an uninterpreted
//! name; the verified code above this module reasons purely in terms of
//! those names.

use vstd::prelude::*;

verus! {

// What `char::is_lowercase` returns: the Unicode `Lowercase` property.
pub uninterp spec fn is_lower_char(c: char) -> bool;

// What `char::is_uppercase` returns: the Unicode `Uppercase` property.
pub uninterp spec fn is_upper_char(c: char) -> bool;

// What `char::is_whitespace` returns: the Unicode `White_Space` property.
pub uninterp spec fn is_space_char(c: char) -> bool;

// What `char::is_alphanumeric` returns: whether the character is a letter
// or a number under Unicode's general categories.
pub uninterp spec fn is_alnum_char(c: char) -> bool;

// What `char::to_uppercase` yields for a character: its Unicode uppercase
// mapping, one or more characters.
pub uninterp spec fn upper_of(c: char) -> Seq<char>;

// What `str::to_lowercase` returns for a string with the given characters:
// its Unicode lowercase equivalent.
pub uninterp spec fn lower_of(s: Seq<char>) -> Seq<char>;

/// Relies on `char::is_lowercase`: tests the Unicode `Lowercase` property,
/// a function of the character alone.
pub assume_specification[ char::is_lowercase ](c: char) -> (r: bool)
    ensures
        r == is_lower_char(c),
;

/// Relies on `char::is_uppercase`: tests the Unicode `Uppercase` property,
/// a function of the character alone.
pub assume_specification[ char::is_uppercase ](c: char) -> (r: bool)
    ensures
        r == is_upper_char(c),
;

/// Relies on `char::is_whitespace`: tests the Unicode `White_Space`
/// property, a function of the character alone.
pub assume_specification[ char::is_whitespace ](c: char) -> (r: bool)
    ensures
        r == is_space_char(c),
;

/// Relies on `char::is_alphanumeric`: tests for a Unicode letter or number,
/// a function of the character alone.
pub assume_specification[ char::is_alphanumeric ](c: char) -> (r: bool)
    ensures
        r == is_alnum_char(c),
;

/// Relies on `char::to_uppercase`: yields the Unicode uppercase mapping of
/// `c` as one or more characters, a function of the character alone.
#[verifier::external_body]
pub fn char_to_uppercase(c: char) -> (r: Vec<char>)
    ensures
        r@ == upper_of(c),
        r@.len() >= 1,
{
    let out: Vec<char> = c.to_uppercase().collect();
    out
}

/// Relies on `str::to_lowercase`: returns the Unicode lowercase equivalent
/// of the text, a function of its characters alone.
#[verifier::external_body]
pub fn to_lowercase_chars(v: &Vec<char>) -> (r: Vec<char>)
    ensures
        r@ == lower_of(v@),
{
    let s: String = v.iter().collect();
    let l = s.to_lowercase();
    let out: Vec<char> = l.chars().collect();
    out
}

/// Relies on `String`'s `FromIterator<&char>` (`collect`): builds the string
/// whose characters are exactly those of `v`, in order.
#[verifier::external_body]
pub fn chars_to_string(v: &Vec<char>) -> (r: String)
    ensures
        r@ == v@,
{
    let s: String = v.iter().collect();
    s
}

/// The characters that form a token: Unicode letters and numbers, plus the
/// punctuation that the style keeps inside a word (underscores, apostrophes,
/// straight and curly, periods, colons, slashes, `@`, brackets, parentheses
/// and ampersands).
pub open spec fn is_word_char(c: char) -> bool {
    ||| is_alnum_char(c)
    ||| c == '_' || c == '\'' || c == '\u{2019}' || c == '.' || c == ':' || c == '/' || c == '@'
        || c == '[' || c == ']' || c == '(' || c == ')' || c == '&'
}

/// Executable test for [`is_word_char`].
pub fn word_char(c: char) -> (r: bool)
    ensures
        r == is_word_char(c),
{
    c.is_alphanumeric() || c == '_' || c == '\'' || c == '\u{2019}' || c == '.' || c == ':' || c
        == '/' || c == '@' || c == '[' || c == ']' || c == '(' || c == ')' || c == '&'
}

/// The characters that count as part of a word when the boundary correctors
/// look for a word edge: Unicode letters and numbers and the underscore.
pub open spec fn is_boundary_word_char(c: char) -> bool {
    is_alnum_char(c) || c == '_'
}

/// Executable test for [`is_boundary_word_char`].
pub fn boundary_word_char(c: char) -> (r: bool)
    ensures
        r == is_boundary_word_char(c),
{
    c.is_alphanumeric() || c == '_'
}

} // verus!
