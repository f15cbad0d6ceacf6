use vstd::prelude::*;

verus! {

/// The address from which a receiver fetches `text` spoken in `language`.
pub uninterp spec fn speech_url(text: Seq<char>, language: Seq<char>) -> Seq<char>;

/// Relies on `google_translate_tts::url`: it builds the address of the speech
/// audio from the text and the language tag alone, with no effect of its own.
#[verifier::external_body]
pub(crate) fn speech_locator(text: &str, language: &str) -> (r: String)
    ensures
        r@ == speech_url(text@, language@),
{
    google_translate_tts::url(text, language)
}

} // verus!
