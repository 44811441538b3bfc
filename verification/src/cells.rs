//! Per-character terminal facts: how many cells a character occupies and
//! whether it is whitespace.

use unicode_width::UnicodeWidthChar;
use vstd::prelude::*;

verus! {

/// The display width that `unicode_width` gives a character.
pub uninterp spec fn cell_width(ch: char) -> Option<usize>;

/// The characters with the Unicode `White_Space` property.
pub open spec fn white_space(ch: char) -> bool {
    ||| '\u{9}' <= ch && ch <= '\u{d}'
    ||| ch == '\u{20}'
    ||| ch == '\u{85}'
    ||| ch == '\u{a0}'
    ||| ch == '\u{1680}'
    ||| '\u{2000}' <= ch && ch <= '\u{200a}'
    ||| ch == '\u{2028}'
    ||| ch == '\u{2029}'
    ||| ch == '\u{202f}'
    ||| ch == '\u{205f}'
    ||| ch == '\u{3000}'
}

/// The C0 and C1 control characters and DEL.
pub open spec fn is_control(ch: char) -> bool {
    ch < '\u{20}' || ('\u{7f}' <= ch && ch < '\u{a0}')
}

/// Blank and the visible ASCII characters.
pub open spec fn is_printable_ascii(ch: char) -> bool {
    '\u{20}' <= ch && ch < '\u{7f}'
}

/// `UnicodeWidthChar::width`. The width itself is a table lookup, so it is
/// named rather than spelled out; a control character, and only one, has no
/// width, and printable ASCII is one cell wide.
#[verifier::external_body]
pub(crate) fn char_width(ch: char) -> (width: Option<usize>)
    ensures
        width == cell_width(ch),
        width is None <==> is_control(ch),
        is_printable_ascii(ch) ==> width == Some(1usize),
{
    UnicodeWidthChar::width(ch)
}

/// `char::is_whitespace`: the `White_Space` property of the Unicode
/// character database.
pub assume_specification[ char::is_whitespace ](ch: char) -> (space: bool)
    ensures
        space == white_space(ch),
;

} // verus!
