//! The text of an optional field of a data file: which texts stand for a
//! missing value.

use vstd::prelude::*;
use vstd::string::StrSliceExecFns;

verus! {

/// What `str::trim` makes of a text: the text without the white space at
/// its start and at its end.
pub uninterp spec fn trimmed(text: Seq<char>) -> Seq<char>;

/// `str::trim`: the slice of the text that is left when the white space at
/// its start and at its end is taken away.
#[verifier::external_body]
fn trim(text: &str) -> (inner: &str)
    ensures
        inner@ == trimmed(text@),
{
    text.trim()
}

/// A field holds a number with a fraction, for which "nan" is no value, or a
/// whole number.
#[derive(Debug, Clone, Copy, PartialEq, Eq, Structural)]
pub enum FieldKind {
    Fraction,
    Whole,
}

/// The text `-9999`, which stands for a missing value.
pub open spec fn is_sentinel(text: Seq<char>) -> bool {
    text =~= seq!['-', '9', '9', '9', '9']
}

/// The text `na`, in small or capital letters.
pub open spec fn is_na(text: Seq<char>) -> bool {
    text.len() == 2 && (text[0] == 'n' || text[0] == 'N') && (text[1] == 'a' || text[1] == 'A')
}

/// The text `nan`, in small or capital letters.
pub open spec fn is_nan(text: Seq<char>) -> bool {
    text.len() == 3 && (text[0] == 'n' || text[0] == 'N') && (text[1] == 'a' || text[1] == 'A') && (
    text[2] == 'n' || text[2] == 'N')
}

/// Whether a text, with no white space around it, stands for a missing value
/// of a field of the given kind: the empty text, `-9999`, `na`, and for a
/// number with a fraction also `nan`.
pub open spec fn marks_missing(text: Seq<char>, kind: FieldKind) -> bool {
    text.len() == 0 || is_sentinel(text) || is_na(text) || (kind == FieldKind::Fraction && is_nan(
        text,
    ))
}

/// Decides [`marks_missing`].
pub fn is_missing_marker(text: &str, kind: FieldKind) -> (missing: bool)
    ensures
        missing == marks_missing(text@, kind),
{
    let length = text.unicode_len();
    if length == 0 {
        true
    } else if length == 2 {
        let first = text.get_char(0);
        let second = text.get_char(1);
        (first == 'n' || first == 'N') && (second == 'a' || second == 'A')
    } else if length == 3 {
        let first = text.get_char(0);
        let second = text.get_char(1);
        let third = text.get_char(2);
        kind == FieldKind::Fraction && (first == 'n' || first == 'N') && (second == 'a' || second
            == 'A') && (third == 'n' || third == 'N')
    } else if length == 5 {
        text.get_char(0) == '-' && text.get_char(1) == '9' && text.get_char(2) == '9'
            && text.get_char(3) == '9' && text.get_char(4) == '9'
    } else {
        false
    }
}

/// The text of a field without the white space around it, or `None` where
/// that text stands for a missing value.
pub fn field_value(field: &str, kind: FieldKind) -> (value: Option<&str>)
    ensures
        value is None <==> marks_missing(trimmed(field@), kind),
        value matches Some(text) ==> text@ == trimmed(field@),
{
    let text = trim(field);
    if is_missing_marker(text, kind) {
        None
    } else {
        Some(text)
    }
}

} // verus!
