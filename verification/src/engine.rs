//! The calls into the `base64` crate, which does the encoding and the
//! decoding. The contracts in this module are believed, not proved: each says
//! what the engine that it calls does.

use vstd::prelude::*;
use base64::Engine;
use crate::text::{encoded, encoded_len, encoded_text, is_loose_form};

verus! {

/// `base64::DecodeError`, which says why an engine did not take a text. The
/// decoder only tells it from success.
#[verifier::external_type_specification]
#[verifier::external_body]
pub struct ExDecodeError(base64::DecodeError);

/// Calls `Engine::encode` on `base64::engine::general_purpose::STANDARD`, the
/// engine of the standard alphabet that pads what it writes. What comes back
/// is the Base64 text of `data`. The engine panics where the length of that
/// text does not fit a `usize`: such data is left out.
#[verifier::external_body]
pub(crate) fn standard_encode(data: &[u8]) -> (text: String)
    requires
        encoded_len(data@.len()) <= usize::MAX,
    ensures
        text@ == encoded_text(data@),
{
    base64::engine::general_purpose::STANDARD.encode(data)
}

/// Calls `Engine::decode` on `base64::engine::general_purpose::STANDARD`,
/// which wants every group whole, the padding canonical and no bits set in
/// the last symbol beyond the last byte. So it takes a text exactly where the
/// text is the Base64 text of some bytes, and these bytes are what comes back.
#[verifier::external_body]
pub(crate) fn standard_decode(text: &[u8]) -> (result: Result<Vec<u8>, base64::DecodeError>)
    ensures
        match result {
            Ok(bytes) => text@ == encoded(bytes@),
            Err(_) => forall|bytes: Seq<u8>| text@ != #[trigger] encoded(bytes),
        },
{
    base64::engine::general_purpose::STANDARD.decode(text)
}

/// Calls `Engine::decode` on a `GeneralPurpose` engine of the standard
/// alphabet whose padding mode is `DecodePaddingMode::Indifferent`: canonical
/// padding or any fewer padding bytes, and still no bits set in the last
/// symbol beyond the last byte. So it takes a text exactly where the text is
/// the Base64 text of some bytes with none, some or all of the padding left
/// off, and these bytes are what comes back.
#[verifier::external_body]
pub(crate) fn indifferent_decode(text: &[u8]) -> (result: Result<Vec<u8>, base64::DecodeError>)
    ensures
        match result {
            Ok(bytes) => is_loose_form(text@, bytes@),
            Err(_) => forall|bytes: Seq<u8>| !is_loose_form(text@, bytes),
        },
{
    base64::engine::GeneralPurpose::new(
        &base64::alphabet::STANDARD,
        base64::engine::GeneralPurposeConfig::new().with_decode_padding_mode(
            base64::engine::DecodePaddingMode::Indifferent,
        ),
    ).decode(text)
}

} // verus!
