//! What holds of the encoder and the decoder together.

use vstd::prelude::*;
use vstd::utf8::{encode_utf8, is_ascii_chars, is_ascii_chars_encode_utf8};
use crate::alphabet::{is_symbol, is_whitespace, PAD};
use crate::codec::{
    decoding, examined, lemma_decoding_finds, lemma_without_whitespace_push, stands_for,
    without_whitespace, Base64DecodeOptions,
};
use crate::text::{
    encoded, encoded_text, lemma_encoded_is_loose_form, lemma_lengths, lemma_loose_form_symbols,
    significant_len, symbols_len,
};

verus! {

/// A text without whitespace is left whole when whitespace is skipped.
pub proof fn lemma_nothing_to_skip(text: Seq<u8>)
    requires
        forall|i: int| 0 <= i < text.len() ==> !is_whitespace(#[trigger] text[i]),
    ensures
        without_whitespace(text) == text,
    decreases text.len(),
{
    if text.len() == 0 {
        reveal(Seq::filter);
    } else {
        lemma_nothing_to_skip(text.drop_last());
        lemma_without_whitespace_push(text.drop_last(), text.last());
        assert(text.drop_last().push(text.last()) =~= text);
    }
}

/// What is left when whitespace is skipped holds no whitespace, and every
/// other byte of the text is still there.
pub proof fn lemma_skipped(text: Seq<u8>)
    ensures
        forall|j: int|
            0 <= j < without_whitespace(text).len() ==> !is_whitespace(
                #[trigger] without_whitespace(text)[j],
            ),
        forall|i: int|
            0 <= i < text.len() && !is_whitespace(text[i]) ==> without_whitespace(text).contains(
                #[trigger] text[i],
            ),
{
    let kept = |b: u8| !is_whitespace(b);
    assert forall|j: int| 0 <= j < without_whitespace(text).len() implies !is_whitespace(
        #[trigger] without_whitespace(text)[j],
    ) by {
        text.lemma_filter_pred(kept, j);
    }
    assert forall|i: int|
        0 <= i < text.len() && !is_whitespace(text[i]) implies without_whitespace(text).contains(
        #[trigger] text[i],
    ) by {
        text.lemma_filter_contains(kept, i);
    }
}

/// Every byte of a Base64 text is a symbol or the padding byte, and the
/// characters of the text are these bytes.
pub proof fn lemma_text_as_bytes(bytes: Seq<u8>)
    ensures
        forall|i: int|
            0 <= i < encoded(bytes).len() ==> is_symbol(#[trigger] encoded(bytes)[i]) || encoded(
                bytes,
            )[i] == PAD,
        is_ascii_chars(encoded_text(bytes)),
        encode_utf8(encoded_text(bytes)) == encoded(bytes),
{
    let text = encoded(bytes);
    let chars = encoded_text(bytes);
    lemma_encoded_is_loose_form(bytes);
    lemma_loose_form_symbols(text, bytes);
    assert forall|i: int| 0 <= i < text.len() implies is_symbol(#[trigger] text[i]) || text[i]
        == PAD by {
        if i < symbols_len(bytes.len()) {
            assert(is_symbol(text[i]));
        }
    }
    assert forall|i: int| 0 <= i < chars.len() implies '\0' <= #[trigger] chars[i] <= '\u{7f}'
        && chars[i] as u8 == text[i] by {
        assert(is_symbol(text[i]) || text[i] == PAD);
    }
    is_ascii_chars_encode_utf8(chars);
    assert(encode_utf8(chars) =~= text);
}

/// Decoding what the encoder wrote succeeds in both modes, and gives the
/// bytes that were encoded.
pub proof fn lemma_round_trip(bytes: Seq<u8>)
    ensures
        decoding(Base64DecodeOptions::Strict, encoded(bytes)) == Some(bytes),
        decoding(Base64DecodeOptions::Forgiving, encoded(bytes)) == Some(bytes),
{
    let text = encoded(bytes);
    lemma_decoding_finds(Base64DecodeOptions::Strict, text, bytes);
    lemma_text_as_bytes(bytes);
    lemma_nothing_to_skip(text);
    lemma_encoded_is_loose_form(bytes);
    lemma_decoding_finds(Base64DecodeOptions::Forgiving, text, bytes);
}

/// A text stands for at most one byte sequence: what decoding gives depends
/// on the text and the mode and on nothing else.
pub proof fn lemma_stands_for_one(
    options: Base64DecodeOptions,
    text: Seq<u8>,
    bytes: Seq<u8>,
    others: Seq<u8>,
)
    requires
        stands_for(options, text, bytes),
        stands_for(options, text, others),
    ensures
        bytes == others,
{
    lemma_decoding_finds(options, text, bytes);
    lemma_decoding_finds(options, text, others);
}

/// Two calls of the decoder with the same text and mode, on buffers that hold
/// the same, return the same and leave the buffers holding the same.
pub proof fn lemma_decode_deterministic(
    options: Base64DecodeOptions,
    text: Seq<u8>,
    before: Seq<u8>,
    first: (bool, Seq<u8>),
    second: (bool, Seq<u8>),
)
    requires
        match decoding(options, text) {
            Some(bytes) => first.0 && first.1 == before + bytes,
            None => !first.0 && first.1 == before,
        },
        match decoding(options, text) {
            Some(bytes) => second.0 && second.1 == before + bytes,
            None => !second.0 && second.1 == before,
        },
    ensures
        first == second,
{
}

/// The empty text is the text of no bytes, and decodes to no bytes in both
/// modes.
pub proof fn lemma_empty()
    ensures
        encoded(Seq::<u8>::empty()) == Seq::<u8>::empty(),
        encoded_text(Seq::<u8>::empty()) == Seq::<char>::empty(),
        decoding(Base64DecodeOptions::Strict, Seq::<u8>::empty()) == Some(Seq::<u8>::empty()),
        decoding(Base64DecodeOptions::Forgiving, Seq::<u8>::empty()) == Some(Seq::<u8>::empty()),
{
    let none = Seq::<u8>::empty();
    assert(encoded(none) =~= none);
    assert(encoded_text(none) =~= Seq::<char>::empty());
    lemma_round_trip(none);
}

/// A text whose last group holds a single symbol is rejected in both modes:
/// six bits are not enough for a byte.
pub proof fn lemma_single_trailing_symbol(options: Base64DecodeOptions, text: Seq<u8>)
    requires
        significant_len(examined(options, text)) % 4 == 1,
    ensures
        decoding(options, text) is None,
{
    if let Some(bytes) = decoding(options, text) {
        if options == Base64DecodeOptions::Strict {
            lemma_encoded_is_loose_form(bytes);
        }
        lemma_loose_form_symbols(examined(options, text), bytes);
        lemma_lengths(bytes.len());
    }
}

/// A text that holds a byte which is neither a symbol nor the padding byte
/// is rejected, unless the mode is forgiving and the byte is whitespace.
pub proof fn lemma_invalid_symbol(options: Base64DecodeOptions, text: Seq<u8>, i: int)
    requires
        0 <= i < text.len(),
        !is_symbol(text[i]),
        text[i] != PAD,
        options == Base64DecodeOptions::Forgiving ==> !is_whitespace(text[i]),
    ensures
        decoding(options, text) is None,
{
    if let Some(bytes) = decoding(options, text) {
        let read = examined(options, text);
        if options == Base64DecodeOptions::Strict {
            lemma_encoded_is_loose_form(bytes);
        } else {
            lemma_skipped(text);
        }
        assert(read.contains(text[i]));
        let j = choose|j: int| 0 <= j < read.len() && read[j] == text[i];
        lemma_loose_form_symbols(read, bytes);
        if j < symbols_len(bytes.len()) {
            assert(is_symbol(read[j]));
        } else {
            assert(read[j] == PAD);
        }
    }
}

/// Strict decoding takes only texts of whole groups of four, of which at
/// most the last two bytes are padding.
pub proof fn lemma_strict_shape(text: Seq<u8>)
    requires
        decoding(Base64DecodeOptions::Strict, text) is Some,
    ensures
        text.len() % 4 == 0,
        text.len() - 2 <= significant_len(text) <= text.len(),
{
    let bytes = decoding(Base64DecodeOptions::Strict, text)->0;
    lemma_encoded_is_loose_form(bytes);
    lemma_loose_form_symbols(text, bytes);
    lemma_lengths(bytes.len());
}

/// What decoding gives is as long as the symbols say: three bytes for every
/// four symbols, and one or two for a last group of two or three.
pub proof fn lemma_decoded_len(options: Base64DecodeOptions, text: Seq<u8>)
    requires
        decoding(options, text) is Some,
    ensures
        decoding(options, text)->0.len() == significant_len(examined(options, text)) * 3 / 4,
        significant_len(examined(options, text)) == symbols_len(decoding(options, text)->0.len()),
{
    let bytes = decoding(options, text)->0;
    if options == Base64DecodeOptions::Strict {
        lemma_encoded_is_loose_form(bytes);
    }
    lemma_loose_form_symbols(examined(options, text), bytes);
}

/// Forgiving decoding takes every text that strict decoding takes, and reads
/// the same bytes from it.
pub proof fn lemma_forgiving_takes_strict(text: Seq<u8>)
    requires
        decoding(Base64DecodeOptions::Strict, text) is Some,
    ensures
        decoding(Base64DecodeOptions::Forgiving, text) == decoding(
            Base64DecodeOptions::Strict,
            text,
        ),
{
    let bytes = decoding(Base64DecodeOptions::Strict, text)->0;
    lemma_text_as_bytes(bytes);
    lemma_nothing_to_skip(text);
    lemma_encoded_is_loose_form(bytes);
    lemma_decoding_finds(Base64DecodeOptions::Forgiving, text, bytes);
}

/// Forgiving decoding does not see whitespace: a text and what is left of it
/// without whitespace decode alike.
pub proof fn lemma_whitespace_unseen(text: Seq<u8>)
    ensures
        decoding(Base64DecodeOptions::Forgiving, without_whitespace(text)) == decoding(
            Base64DecodeOptions::Forgiving,
            text,
        ),
{
    lemma_skipped(text);
    lemma_nothing_to_skip(without_whitespace(text));
}

} // verus!
