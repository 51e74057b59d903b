//! Character classes used by the formatter: whitespace, ASCII letters and
//! digits, Han-script characters, and list markers.
use vstd::prelude::*;

verus! {

/// Unicode whitespace (the White_Space property), the class a pattern
/// written `\s` matches.
pub open spec fn is_space_spec(c: char) -> bool {
    ||| c == ' '
    ||| c == '\t'
    ||| c == '\n'
    ||| c == '\r'
    ||| c == '\u{b}'
    ||| c == '\u{c}'
    ||| c == '\u{85}'
    ||| c == '\u{a0}'
    ||| c == '\u{1680}'
    ||| ('\u{2000}' <= c && c <= '\u{200a}')
    ||| c == '\u{2028}'
    ||| c == '\u{2029}'
    ||| c == '\u{202f}'
    ||| c == '\u{205f}'
    ||| c == '\u{3000}'
}

/// An ASCII Latin letter or decimal digit, one side of a CJK/ASCII boundary.
pub open spec fn is_ascii_alnum_spec(c: char) -> bool {
    ('a' <= c && c <= 'z') || ('A' <= c && c <= 'Z') || ('0' <= c && c <= '9')
}

/// An ASCII decimal digit, as used by ordered-list markers.
pub open spec fn is_digit_spec(c: char) -> bool {
    '0' <= c && c <= '9'
}

/// A Han-script character: the CJK unified ideograph blocks and their
/// extensions, the compatibility ideographs, the CJK and Kangxi radicals,
/// and the ideographic iteration/closing marks.
pub open spec fn is_han_spec(c: char) -> bool {
    ||| ('\u{4e00}' <= c && c <= '\u{9fff}')
    ||| ('\u{3400}' <= c && c <= '\u{4dbf}')
    ||| ('\u{f900}' <= c && c <= '\u{faff}')
    ||| ('\u{2e80}' <= c && c <= '\u{2ef3}')
    ||| ('\u{2f00}' <= c && c <= '\u{2fd5}')
    ||| c == '\u{3005}'
    ||| c == '\u{3007}'
    ||| ('\u{3021}' <= c && c <= '\u{3029}')
    ||| ('\u{20000}' <= c && c <= '\u{2ebef}')
    ||| ('\u{2f800}' <= c && c <= '\u{2fa1f}')
    ||| ('\u{30000}' <= c && c <= '\u{3134f}')
}

/// An unordered list marker.
pub open spec fn is_marker_spec(c: char) -> bool {
    c == '*' || c == '+' || c == '-'
}

/// A Han character next to an ASCII letter or digit, in either order: the
/// place where the inline spacer inserts a space.
pub open spec fn cjk_boundary(a: char, b: char) -> bool {
    (is_han_spec(a) && is_ascii_alnum_spec(b)) || (is_ascii_alnum_spec(a) && is_han_spec(b))
}

pub fn is_space(c: char) -> (r: bool)
    ensures
        r == is_space_spec(c),
{
    c == ' ' || c == '\t' || c == '\n' || c == '\r' || c == '\u{b}' || c == '\u{c}'
        || c == '\u{85}' || c == '\u{a0}' || c == '\u{1680}'
        || ('\u{2000}' <= c && c <= '\u{200a}') || c == '\u{2028}' || c == '\u{2029}'
        || c == '\u{202f}' || c == '\u{205f}' || c == '\u{3000}'
}

pub fn is_ascii_alnum(c: char) -> (r: bool)
    ensures
        r == is_ascii_alnum_spec(c),
{
    ('a' <= c && c <= 'z') || ('A' <= c && c <= 'Z') || ('0' <= c && c <= '9')
}

pub fn is_digit(c: char) -> (r: bool)
    ensures
        r == is_digit_spec(c),
{
    '0' <= c && c <= '9'
}

pub fn is_han(c: char) -> (r: bool)
    ensures
        r == is_han_spec(c),
{
    ('\u{4e00}' <= c && c <= '\u{9fff}') || ('\u{3400}' <= c && c <= '\u{4dbf}')
        || ('\u{f900}' <= c && c <= '\u{faff}') || ('\u{2e80}' <= c && c <= '\u{2ef3}')
        || ('\u{2f00}' <= c && c <= '\u{2fd5}') || c == '\u{3005}' || c == '\u{3007}'
        || ('\u{3021}' <= c && c <= '\u{3029}') || ('\u{20000}' <= c && c <= '\u{2ebef}')
        || ('\u{2f800}' <= c && c <= '\u{2fa1f}') || ('\u{30000}' <= c && c <= '\u{3134f}')
}

pub fn is_marker(c: char) -> (r: bool)
    ensures
        r == is_marker_spec(c),
{
    c == '*' || c == '+' || c == '-'
}

/// A space is in none of the classes that take part in spacing decisions,
/// so inserting one can never create a new CJK/ASCII boundary.
pub proof fn lemma_space_no_boundary(c: char)
    ensures
        !cjk_boundary(' ', c),
        !cjk_boundary(c, ' '),
{
}

} // verus!
