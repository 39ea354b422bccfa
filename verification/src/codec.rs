//! The encoder and the decoder.

use vstd::prelude::*;
use crate::alphabet::is_whitespace;
use crate::engine::{indifferent_decode, standard_decode, standard_encode};
use crate::text::{
    encoded, encoded_len, encoded_text, is_loose_form, lemma_encoded_is_loose_form,
    lemma_loose_form_spells, spelled,
};

verus! {

/// How strictly a text is decoded.
#[derive(Clone, Copy, Debug, PartialEq, Eq, Structural)]
pub enum Base64DecodeOptions {
    /// The text must be exactly what the encoder writes: no whitespace, and
    /// the padding complete.
    Strict,
    /// ASCII whitespace is skipped wherever it stands, and of the padding
    /// any part may be missing.
    Forgiving,
}

/// `text` without its ASCII whitespace.
pub open spec fn without_whitespace(text: Seq<u8>) -> Seq<u8> {
    text.filter(|b: u8| !is_whitespace(b))
}

/// The part of `text` that decoding reads under `options`.
pub open spec fn examined(options: Base64DecodeOptions, text: Seq<u8>) -> Seq<u8> {
    match options {
        Base64DecodeOptions::Strict => text,
        Base64DecodeOptions::Forgiving => without_whitespace(text),
    }
}

/// Whether `text` is a way to write `bytes` that `options` accepts.
pub open spec fn stands_for(options: Base64DecodeOptions, text: Seq<u8>, bytes: Seq<u8>) -> bool {
    match options {
        Base64DecodeOptions::Strict => text == encoded(bytes),
        Base64DecodeOptions::Forgiving => is_loose_form(without_whitespace(text), bytes),
    }
}

/// What decoding `text` under `options` gives: the bytes that its symbols
/// spell, if the text is a way to write them, and nothing otherwise.
pub open spec fn decoding(options: Base64DecodeOptions, text: Seq<u8>) -> Option<Seq<u8>> {
    let bytes = spelled(examined(options, text));
    if stands_for(options, text, bytes) {
        Some(bytes)
    } else {
        None
    }
}

/// A text stands for no other bytes than those that decoding finds.
pub proof fn lemma_decoding_finds(options: Base64DecodeOptions, text: Seq<u8>, bytes: Seq<u8>)
    requires
        stands_for(options, text, bytes),
    ensures
        decoding(options, text) == Some(bytes),
{
    match options {
        Base64DecodeOptions::Strict => {
            lemma_encoded_is_loose_form(bytes);
        },
        Base64DecodeOptions::Forgiving => {},
    }
    lemma_loose_form_spells(examined(options, text), bytes);
}

/// Skipping whitespace goes byte by byte.
pub proof fn lemma_without_whitespace_push(text: Seq<u8>, b: u8)
    ensures
        without_whitespace(text.push(b)) == if is_whitespace(b) {
            without_whitespace(text)
        } else {
            without_whitespace(text).push(b)
        },
{
    reveal(Seq::filter);
    assert(text.push(b).drop_last() =~= text);
}

/// Copies `data` without its ASCII whitespace.
pub fn strip_whitespace(data: &[u8]) -> (kept: Vec<u8>)
    ensures
        kept@ == without_whitespace(data@),
{
    let mut kept: Vec<u8> = Vec::new();
    let mut i: usize = 0;
    proof {
        reveal(Seq::filter);
        assert(data@.take(0) =~= Seq::<u8>::empty());
    }
    while i < data.len()
        invariant
            i <= data.len(),
            kept@ == without_whitespace(data@.take(i as int)),
        decreases data.len() - i,
    {
        let b = data[i];
        proof {
            lemma_without_whitespace_push(data@.take(i as int), b);
            assert(data@.take(i as int).push(b) =~= data@.take(i + 1));
        }
        if !is_whitespace(b) {
            kept.push(b);
        }
        i += 1;
    }
    proof {
        assert(data@.take(data.len() as int) =~= data@);
    }
    kept
}

/// Encodes `data` as Base64 text: standard alphabet, padded with `=` to a
/// multiple of four characters, no line breaks.
///
/// The text of `data` must not be longer than a `usize` can say.
pub fn rs_base64_encode(data: &[u8]) -> (text: String)
    requires
        encoded_len(data@.len()) <= usize::MAX,
    ensures
        text@ == encoded_text(data@),
{
    standard_encode(data)
}

/// Decodes the Base64 text `data` under `options`. Where the text is a way to
/// write some bytes, these are appended to `output` and the result is `true`;
/// otherwise `output` stays as it was and the result is `false`.
pub fn rs_base64_decode(data: &[u8], options: Base64DecodeOptions, output: &mut Vec<u8>) -> (ok:
    bool)
    ensures
        match decoding(options, data@) {
            Some(bytes) => ok && final(output)@ == old(output)@ + bytes,
            None => !ok && final(output)@ == old(output)@,
        },
{
    let result = match options {
        Base64DecodeOptions::Strict => standard_decode(data),
        Base64DecodeOptions::Forgiving => {
            let data_without_whitespace = strip_whitespace(data);
            indifferent_decode(data_without_whitespace.as_slice())
        },
    };
    match result {
        Ok(mut bytes) => {
            proof {
                lemma_decoding_finds(options, data@, bytes@);
            }
            output.append(&mut bytes);
            true
        },
        Err(_) => false,
    }
}

} // verus!
