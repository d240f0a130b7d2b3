//! Case mapping and string growth, as the standard library does them.

use vstd::prelude::*;

verus! {

/// What `str::to_lowercase` gives for a text.
pub uninterp spec fn lowercase(text: Seq<char>) -> Seq<char>;

/// What `char::to_uppercase` gives for a character.
pub uninterp spec fn uppercase(c: char) -> Seq<char>;

/// An ASCII character or a Russian letter.
pub open spec fn is_plain(c: char) -> bool {
    c <= '\u{7f}' || '\u{410}' <= c <= '\u{44f}' || c == '\u{401}' || c == '\u{451}'
}

/// A text of ASCII characters and Russian letters.
pub open spec fn is_plain_text(text: Seq<char>) -> bool {
    forall|i: int| 0 <= i < text.len() ==> is_plain(#[trigger] text[i])
}

/// The small letter of a plain capital letter; any other character itself.
pub open spec fn lower_of(c: char) -> char {
    if 'A' <= c <= 'Z' || '\u{410}' <= c <= '\u{42f}' {
        (c as u32 + 32) as char
    } else if c == '\u{401}' {
        '\u{451}'
    } else {
        c
    }
}

/// The capital letter of a plain small letter; any other character itself.
pub open spec fn upper_of(c: char) -> char {
    if 'a' <= c <= 'z' || '\u{430}' <= c <= '\u{44f}' {
        (c as u32 - 32) as char
    } else if c == '\u{451}' {
        '\u{401}'
    } else {
        c
    }
}

/// What stands for a character in uppercase and is in uppercase already:
/// characters without whitespace, of which the first is its own uppercase.
pub open spec fn is_settled(upper: Seq<char>) -> bool {
    &&& upper.len() > 0
    &&& forall|i: int| 0 <= i < upper.len() ==> !crate::text::is_white(#[trigger] upper[i])
    &&& uppercase(upper[0]) == seq![upper[0]]
}

/// A plain text in small letters.
pub open spec fn lowered(text: Seq<char>) -> Seq<char> {
    text.map_values(|c: char| lower_of(c))
}

/// `String::push`: the character is appended to the end of the string.
pub assume_specification[ String::push ](s: &mut String, c: char)
    ensures
        final(s)@ == old(s)@.push(c),
;

/// `str::to_lowercase`: the lowercase equivalent of `text`, the same for the
/// same text everywhere. Every character has a lowercase equivalent of one or
/// more characters, so only the empty text gives the empty text. The Unicode
/// Character Database, by which the equivalents go, gives ASCII and Russian
/// capital letters one small letter each and leaves the other ASCII characters
/// and Russian letters as they are.
#[verifier::external_body]
pub(crate) fn to_lowercase(text: &str) -> (r: String)
    ensures
        r@ == lowercase(text@),
        r@.len() == 0 <==> text@.len() == 0,
        is_plain_text(text@) ==> r@ == lowered(text@),
{
    text.to_lowercase()
}

/// `char::to_uppercase`: the uppercase mapping of `c` as one or more
/// characters, the same for the same character everywhere. The Unicode Character
/// Database, by which the mapping goes, gives each ASCII and Russian small letter
/// one capital letter; the capital letters and the other ASCII characters have no
/// uppercase mapping, so they give themselves. It gives no character that is no
/// whitespace a mapping with whitespace in it, and the first character of a
/// mapping has no uppercase mapping but itself.
#[verifier::external_body]
pub(crate) fn to_uppercase(c: char) -> (r: String)
    ensures
        r@ == uppercase(c),
        r@.len() >= 1,
        is_plain(c) ==> r@ == seq![upper_of(c)],
        !crate::text::is_white(c) ==> is_settled(r@),
{
    c.to_uppercase().to_string()
}

} // verus!
