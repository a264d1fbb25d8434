//! The two points where the library leans on code it does not verify:
//! Unicode lowercasing and the system clock.

use vstd::prelude::*;

verus! {

/// What `str::to_lowercase` returns for a given character sequence.
/// The mapping is involved, but it depends on the characters alone, so
/// contracts can speak of it by this name.
pub uninterp spec fn lower_of(s: Seq<char>) -> Seq<char>;

/// Relies on `str::to_lowercase`: the result is the lowercase mapping
/// of the input, a function of its characters alone, and an empty
/// input stays empty.
#[verifier::external_body]
pub(crate) fn lowercase(s: &str) -> (r: String)
    ensures
        r@ == lower_of(s@),
        s@.len() == 0 ==> r@.len() == 0,
{
    s.to_lowercase()
}

/// Relies on `chrono::Local::now` and chrono's strftime-style
/// formatting for the run timestamp.  The result depends on the system
/// clock, so nothing is promised of it.
#[verifier::external_body]
pub(crate) fn local_timestamp() -> String {
    chrono::Local::now().format("%Y-%m-%d %H:%M:%S").to_string()
}

} // verus!
