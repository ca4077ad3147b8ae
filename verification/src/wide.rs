//! The wide-string boundary: the process-creation interface of the platform
//! collaborator takes UTF-16 command lines and environment blocks, so the
//! launch preparation converts its strings through `widestring`.

use vstd::prelude::*;

verus! {

#[verifier::external_type_specification]
#[verifier::external_body]
pub struct ExU16String(widestring::U16String);

/// The UTF-16 code units a character sequence encodes to. The encoding is a
/// function of the characters alone, so it only carries a name here; what
/// the library proves about a wide string is stated through this name.
pub uninterp spec fn utf16_of(s: Seq<char>) -> Seq<u16>;

/// The code units a wide string holds.
pub uninterp spec fn wide_units(w: widestring::U16String) -> Seq<u16>;

/// Relies on `widestring::U16String::from_str`: makes a wide-string copy of
/// the `str`, encoding its characters as UTF-16; an empty string gives an
/// empty wide string.
#[verifier::external_body]
pub fn wide_from_str(s: &str) -> (r: widestring::U16String)
    ensures
        wide_units(r) == utf16_of(s@),
        s@.len() == 0 ==> wide_units(r).len() == 0,
{
    widestring::U16String::from_str(s)
}

} // verus!
