//! Partition names are stored as UTF-16.

use vstd::prelude::*;

verus! {

/// Whether a code unit is one half of a surrogate pair.
pub open spec fn is_surrogate(unit: u16) -> bool {
    0xD800 <= unit < 0xE000
}

/// Whether a code unit is the first half of a surrogate pair.
pub open spec fn is_leading_surrogate(unit: u16) -> bool {
    0xD800 <= unit < 0xDC00
}

/// Whether a code unit is the second half of a surrogate pair.
pub open spec fn is_trailing_surrogate(unit: u16) -> bool {
    0xDC00 <= unit < 0xE000
}

/// The code point that a surrogate pair stands for.
pub open spec fn pair_value(leading: u16, trailing: u16) -> int {
    0x1_0000 + (leading - 0xD800) * 0x400 + (trailing - 0xDC00)
}

/// The text that a sequence of UTF-16 code units spells, or `None` where a
/// surrogate stands without its partner.
pub open spec fn decode_utf16(units: Seq<u16>) -> Option<Seq<char>>
    decreases units.len(),
{
    if units.len() == 0 {
        Some(Seq::empty())
    } else if !is_surrogate(units[0]) {
        match decode_utf16(units.skip(1)) {
            Some(rest) => Some(seq![units[0] as char] + rest),
            None => None,
        }
    } else if is_leading_surrogate(units[0]) && units.len() >= 2 && is_trailing_surrogate(units[1]) {
        match decode_utf16(units.skip(2)) {
            Some(rest) => Some(seq![pair_value(units[0], units[1]) as char] + rest),
            None => None,
        }
    } else {
        None
    }
}

/// Decodes with `String::from_utf16`, which std documents to decode UTF-16 and
/// to fail on invalid data. Nothing is proved of it: the contract states, in
/// `decode_utf16`, what the Unicode standard defines UTF-16 to be.
#[verifier::external_body]
pub(crate) fn string_from_utf16(units: &[u16]) -> (text: Option<String>)
    ensures
        match text {
            Some(s) => decode_utf16(units@) == Some(s@),
            None => decode_utf16(units@) is None,
        },
{
    String::from_utf16(units).ok()
}

} // verus!
