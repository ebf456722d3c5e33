//! The letters of a name in a statement. A name starts with a letter or an
//! underscore, and goes on with letters, digits and the signs of a path or
//! an address, so that a source can be named by its location without
//! quotes.

use vstd::prelude::*;

verus! {

/// Whether a character is a letter of the Latin alphabet.
pub open spec fn is_letter(ch: char) -> bool {
    ('a' <= ch && ch <= 'z') || ('A' <= ch && ch <= 'Z')
}

/// Whether a name can start with the character: a letter or an underscore.
pub open spec fn starts_name(ch: char) -> bool {
    is_letter(ch) || ch == '_'
}

/// Whether a name can go on with the character: a letter, a digit, or one
/// of `: / ? & = - _ .`
pub open spec fn continues_name(ch: char) -> bool {
    is_letter(ch) || ('0' <= ch && ch <= '9') || ch == ':' || ch == '/' || ch == '?' || ch == '&'
        || ch == '=' || ch == '-' || ch == '_' || ch == '.'
}

/// Whether a name can start with the character.
pub fn is_identifier_start(ch: char) -> (yes: bool)
    ensures
        yes == starts_name(ch),
{
    ('a' <= ch && ch <= 'z') || ('A' <= ch && ch <= 'Z') || ch == '_'
}

/// Whether a name can go on with the character.
pub fn is_identifier_part(ch: char) -> (yes: bool)
    ensures
        yes == continues_name(ch),
{
    ('a' <= ch && ch <= 'z') || ('A' <= ch && ch <= 'Z') || ('0' <= ch && ch <= '9') || ch == ':'
        || ch == '/' || ch == '?' || ch == '&' || ch == '=' || ch == '-' || ch == '_' || ch == '.'
}

} // verus!
