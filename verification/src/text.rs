//! Script-variant normalization of transcript text before storage.
//!
//! Transcripts in a Chinese language are converted to Traditional Chinese
//! before they are persisted; the text shown to the user is left unmodified.

use vstd::prelude::*;

verus! {

/// The Traditional Chinese rendering of a text, as the conversion tables
/// define it; a pure function of the characters alone.
pub uninterp spec fn to_hant_of(text: Seq<char>) -> Seq<char>;

/// Relies on zhconv::zhconv with the ZhHant target: converts a text to
/// Traditional Chinese using its built-in tables, a deterministic function
/// of the input text.
#[verifier::external_body]
fn to_traditional(text: &str) -> (converted: String)
    ensures
        converted@ == to_hant_of(text@),
{
    zhconv::zhconv(text, zhconv::Variant::ZhHant)
}

/// What the stored form of a transcript is: converted to Traditional Chinese
/// for the Chinese language tags, unchanged for every other language.
pub open spec fn spec_storage_text(language: Seq<char>, text: Seq<char>) -> Seq<char> {
    if language == "zh"@ || language == "yue"@ {
        to_hant_of(text)
    } else {
        text
    }
}

/// The text to persist for a transcript line: Chinese text is normalized to
/// Traditional Chinese, any other language is stored as it came.
pub fn storage_text(language: &str, text: &str) -> (stored: String)
    ensures
        stored@ == spec_storage_text(language@, text@),
{
    let lang: String = language.to_owned();
    if lang == "zh".to_owned() || lang == "yue".to_owned() {
        to_traditional(text)
    } else {
        text.to_owned()
    }
}

} // verus!
