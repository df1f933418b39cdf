//! The few places where the library leans on code it does not verify: the
//! grapheme segmenter, the decimal parser, and one `String` method of std.

use unicode_segmentation::UnicodeSegmentation;
use vstd::prelude::*;

verus! {

#[verifier::external_type_specification]
#[verifier::external_body]
pub struct ExDecimal(rust_decimal::Decimal);

/// Whether rust_decimal's `Decimal::from_str` accepts this text.
pub uninterp spec fn decimal_parses(s: Seq<char>) -> bool;

/// The decimal that rust_decimal's `Decimal::from_str` reads from this text.
pub uninterp spec fn decimal_value(s: Seq<char>) -> rust_decimal::Decimal;

/// Relies on rust_decimal's `Decimal::from_str` (reached through
/// `str::parse`): whether the text is accepted and which decimal it denotes
/// depend on the characters alone.
#[verifier::external_body]
pub(crate) fn parse_decimal(s: &str) -> (r: Option<rust_decimal::Decimal>)
    ensures
        r is Some <==> decimal_parses(s@),
        r is Some ==> r.unwrap() == decimal_value(s@),
{
    match s.parse::<rust_decimal::Decimal>() {
        Ok(d) => Some(d),
        Err(_) => None,
    }
}

/// The extended grapheme clusters of the text, in order.
pub uninterp spec fn graphemes_of(s: Seq<char>) -> Seq<Seq<char>>;

/// Relies on unicode_segmentation's `UnicodeSegmentation::graphemes`: the
/// iterator yields the extended grapheme clusters of the string as subslices,
/// in order; they segment the whole string, so their concatenation is the
/// string itself.
#[verifier::external_body]
pub(crate) fn split_graphemes(s: &str) -> (r: Vec<String>)
    ensures
        r.deep_view() == graphemes_of(s@),
        r.deep_view().flatten() == s@,
{
    s.graphemes(true).map(|g| g.to_string()).collect()
}

/// Relies on std's `String::push`: appends one character at the end.
#[verifier::external_body]
pub(crate) fn push_char(s: &mut String, c: char)
    ensures
        final(s)@ == old(s)@.push(c),
{
    s.push(c);
}

} // verus!
