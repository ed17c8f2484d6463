//! The boundary to callers that hand over raw bytes: it decides whether an
//! analysis can be made at all.

use vstd::prelude::*;
use vstd::utf8::{decode_utf8, valid_utf8};
use crate::analysis::{analysis, analyze_text_internal, AnalysisResult};
use crate::text::blank;
use crate::tokenizer::run_count;
use crate::trusted::nfc_form;

verus! {

/// The normalized text that the bytes `text` encode.
pub open spec fn normalized(text: Seq<u8>) -> Seq<char> {
    nfc_form(decode_utf8(text))
}

/// Analyzes text that arrives as raw bytes.
///
/// Both byte strings must be well-formed UTF-8: if either is not, there is
/// no analysis. Otherwise the result is the analysis of the text that `text`
/// encodes, once normalized. The language tag `lang` has no other influence.
pub fn analyze_text(lang: &[u8], text: &[u8]) -> (out: Option<AnalysisResult>)
    ensures
        out is Some <==> valid_utf8(lang@) && valid_utf8(text@),
        out matches Some(result) ==> result@ == analysis(normalized(text@)),
        out matches Some(result) ==> (result@.len() == 0 <==> blank(normalized(text@))),
        out matches Some(result) ==> result@.flatten().len() == run_count(normalized(text@)),
{
    let lang_text = match core::str::from_utf8(lang) {
        Ok(s) => s,
        Err(_) => { return None; },
    };
    let body = match core::str::from_utf8(text) {
        Ok(s) => s,
        Err(_) => { return None; },
    };
    proof {
        vstd::utf8::encode_utf8_decode_utf8(body@);
    }
    match analyze_text_internal(lang_text, body) {
        Ok(result) => Some(result),
        Err(_) => None,
    }
}

/// The text that goes back to the caller: the serialized analysis, or the
/// empty text when there is none, because the input was rejected or the
/// analysis could not be serialized. The caller has no other sign of failure.
pub fn reply_text(serialized: Option<String>) -> (out: String)
    ensures
        serialized matches Some(text) ==> out@ == text@,
        serialized is None ==> out@.len() == 0,
{
    match serialized {
        Some(text) => text,
        None => String::new(),
    }
}

} // verus!
