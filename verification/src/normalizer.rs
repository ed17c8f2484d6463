//! Normalization: every later stage works on text in Normalization Form C.

use vstd::prelude::*;
use crate::trusted::{nfc_form, to_nfc};

verus! {

/// Brings `text` into Unicode Normalization Form C.
///
/// Normalizing is idempotent: the result is its own normal form, so
/// normalizing it once more changes nothing.
pub fn normalize_text(text: &str) -> (out: String)
    ensures
        out@ == nfc_form(text@),
        nfc_form(out@) == out@,
{
    to_nfc(text)
}

} // verus!
