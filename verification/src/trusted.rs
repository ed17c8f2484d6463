//! Everything this crate believes without proof.
//!
//! Each item below states a contract for code defined outside the crate. The
//! verifier takes these contracts as given; the rest of the crate is proved
//! from them.

use vstd::prelude::*;
use vstd::utf8::{encode_utf8, valid_utf8};
use unicode_normalization::UnicodeNormalization;

verus! {

/// `String::push` appends the given character to the end of the string and
/// changes nothing else.
pub assume_specification[ String::push ](s: &mut String, ch: char)
    ensures
        final(s)@ == old(s)@.push(ch),
;

/// The text that `unicode_normalization` yields for `text` in Normalization
/// Form C: canonical decomposition followed by canonical composition.
pub uninterp spec fn nfc_form(text: Seq<char>) -> Seq<char>;

/// Calls `UnicodeNormalization::nfc` on `text` and collects the characters it
/// yields.
///
/// The contract names the result and claims one thing about it: it is in
/// Normalization Form C, that is, normalizing it again gives it back. This is
/// the test by which `unicode_normalization::is_nfc` decides whether a text
/// is in that form.
#[verifier::external_body]
pub(crate) fn to_nfc(text: &str) -> (out: String)
    ensures
        out@ == nfc_form(text@),
        nfc_form(out@) == out@,
{
    text.nfc().collect::<String>()
}

/// The text that `str::to_lowercase` returns for `text`: its lowercase
/// equivalent under the Unicode `Lowercase` mapping, which does not depend on
/// a locale.
pub uninterp spec fn lowercased(text: Seq<char>) -> Seq<char>;

/// Calls `str::to_lowercase` on `text`. The contract only names the result.
#[verifier::external_body]
pub(crate) fn to_lowercase(text: &str) -> (out: String)
    ensures
        out@ == lowercased(text@),
{
    text.to_lowercase()
}

/// The error that `core::str::from_utf8` reports. Nothing is read from it.
#[verifier::external_type_specification]
#[verifier::external_body]
pub struct ExUtf8Error(core::str::Utf8Error);

/// `core::str::from_utf8` succeeds exactly on well-formed UTF-8, and the text
/// it then returns is the one that the given bytes encode.
pub assume_specification[ core::str::from_utf8 ](v: &[u8]) -> (r: Result<
    &str,
    core::str::Utf8Error,
>)
    ensures
        r is Ok <==> valid_utf8(v@),
        r matches Ok(s) ==> encode_utf8(s@) == v@,
;

} // verus!
