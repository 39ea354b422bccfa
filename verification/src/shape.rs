//! Which texts can be decoded, said of the text itself: what it is made of,
//! how long it is, and what its last symbol holds.

use vstd::prelude::*;
use crate::alphabet::{
    is_symbol, lemma_symbol_value, lemma_value_symbol, symbol, symbol_value, PAD,
};
use crate::codec::{decoding, examined, Base64DecodeOptions};
use crate::text::{
    byte_or_zero, encoded, encoded_len, is_loose_form, lemma_encoded_is_loose_form, lemma_lengths,
    lemma_loose_form_symbols, lemma_sextet_range, sextet, significant_len, spelled, spelled_byte,
    symbols_len,
};

verus! {

/// Whether the last of `m` symbols holds only bits of whole bytes. A last
/// group of two symbols holds one byte and four bits more, one of three holds
/// two bytes and two bits more: these bits must be zero.
pub open spec fn last_symbol_fits(text: Seq<u8>, m: int) -> bool {
    if m % 4 == 2 {
        symbol_value(text[m - 1]) % 16 == 0
    } else if m % 4 == 3 {
        symbol_value(text[m - 1]) % 4 == 0
    } else {
        true
    }
}

/// Whether `text` is made as a Base64 text is, complete or short of padding:
/// symbols first, never a single one in the last group, no stray bits in the
/// last of them, and then no more padding than fills the last group.
pub open spec fn is_well_formed(text: Seq<u8>) -> bool {
    let m = significant_len(text) as int;
    &&& forall|i: int| 0 <= i < m ==> is_symbol(#[trigger] text[i])
    &&& m % 4 != 1
    &&& last_symbol_fits(text, m)
    &&& text.len() <= 4 * ((m + 3) / 4)
}

/// The significant part of a text ends before its padding and not earlier.
pub proof fn lemma_significant_part(text: Seq<u8>)
    ensures
        significant_len(text) <= text.len(),
        forall|i: int| significant_len(text) <= i < text.len() ==> #[trigger] text[i] == PAD,
        significant_len(text) > 0 ==> text[significant_len(text) - 1] != PAD,
    decreases text.len(),
{
    if text.len() > 0 && text.last() == PAD {
        lemma_significant_part(text.drop_last());
        assert forall|i: int| significant_len(text) <= i < text.len() implies #[trigger] text[i]
            == PAD by {
            if i < text.len() - 1 {
                assert(text.drop_last()[i] == PAD);
            }
        }
    }
}

/// Four six-bit values make three bytes, from which they can be read again.
/// Two values make one byte and three make two, if the bits left over are
/// zero.
proof fn lemma_respell(v0: int, v1: int, v2: int, v3: int)
    requires
        0 <= v0 < 64,
        0 <= v1 < 64,
        0 <= v2 < 64,
        0 <= v3 < 64,
    ensures
        0 <= v0 * 4 + v1 / 16 < 256,
        0 <= (v1 % 16) * 16 + v2 / 4 < 256,
        0 <= (v2 % 4) * 64 + v3 < 256,
        (v0 * 4 + v1 / 16) / 4 == v0,
        ((v0 * 4 + v1 / 16) % 4) * 16 + ((v1 % 16) * 16 + v2 / 4) / 16 == v1,
        (((v1 % 16) * 16 + v2 / 4) % 16) * 4 + ((v2 % 4) * 64 + v3) / 64 == v2,
        ((v2 % 4) * 64 + v3) % 64 == v3,
        v1 % 16 == 0 ==> ((v0 * 4 + v1 / 16) % 4) * 16 == v1,
        v2 % 4 == 0 ==> (((v1 % 16) * 16 + v2 / 4) % 16) * 4 == v2,
{
}

/// The bytes that the symbols of a well-formed text spell have the six-bit
/// values that these symbols stand for.
proof fn lemma_spelled_sextet(text: Seq<u8>, i: int)
    requires
        is_well_formed(text),
        0 <= i < significant_len(text),
    ensures
        sextet(spelled(text), i) == symbol_value(text[i]),
{
    let m = significant_len(text) as int;
    let bytes = spelled(text);
    let n = bytes.len() as int;
    let g = i / 4;
    let first = 4 * g;
    assert(n == m * 3 / 4);
    assert(first + 1 < m);
    let v0 = symbol_value(text[first]);
    let v1 = symbol_value(text[first + 1]);
    let v2 = if first + 2 < m { symbol_value(text[first + 2]) } else { 0 };
    let v3 = if first + 3 < m { symbol_value(text[first + 3]) } else { 0 };
    lemma_value_symbol(text[first]);
    lemma_value_symbol(text[first + 1]);
    if first + 2 < m {
        lemma_value_symbol(text[first + 2]);
    }
    if first + 3 < m {
        lemma_value_symbol(text[first + 3]);
    }
    lemma_respell(v0, v1, v2, v3);
    let b0 = byte_or_zero(bytes, 3 * g);
    let b1 = byte_or_zero(bytes, 3 * g + 1);
    let b2 = byte_or_zero(bytes, 3 * g + 2);
    assert((3 * g) / 3 == g && (3 * g) % 3 == 0);
    assert((3 * g + 1) / 3 == g && (3 * g + 1) % 3 == 1);
    assert((3 * g + 2) / 3 == g && (3 * g + 2) % 3 == 2);
    assert(3 * g < n);
    assert(b0 == v0 * 4 + v1 / 16) by {
        assert(bytes[3 * g] == spelled_byte(text, 3 * g) as u8);
    }
    if first + 2 < m {
        assert(3 * g + 1 < n);
        assert(b1 == (v1 % 16) * 16 + v2 / 4) by {
            assert(bytes[3 * g + 1] == spelled_byte(text, 3 * g + 1) as u8);
        }
    } else {
        assert(3 * g + 1 >= n);
        assert(b1 == 0);
        assert(m % 4 == 2 && first + 1 == m - 1);
        assert(v1 % 16 == 0);
    }
    if first + 3 < m {
        assert(3 * g + 2 < n);
        assert(b2 == (v2 % 4) * 64 + v3) by {
            assert(bytes[3 * g + 2] == spelled_byte(text, 3 * g + 2) as u8);
        }
    } else {
        assert(3 * g + 2 >= n);
        assert(b2 == 0);
        if first + 2 < m {
            assert(m % 4 == 3 && first + 2 == m - 1);
            assert(v2 % 4 == 0);
        }
    }
    assert(i == first + i % 4);
}

/// The bytes that `m` symbols spell take `m` symbols again, and their text
/// is as long as the groups that the symbols fill.
proof fn lemma_spelled_len(m: nat)
    requires
        m % 4 != 1,
    ensures
        symbols_len(m * 3 / 4) == m,
        encoded_len(m * 3 / 4) == 4 * ((m + 3) / 4),
{
}

/// A well-formed text is a text of the bytes that its symbols spell, with or
/// without its padding.
pub proof fn lemma_well_formed_is_loose_form(text: Seq<u8>)
    requires
        is_well_formed(text),
    ensures
        is_loose_form(text, spelled(text)),
{
    let m = significant_len(text);
    let bytes = spelled(text);
    lemma_significant_part(text);
    lemma_spelled_len(m);
    let whole = encoded(bytes);
    assert forall|i: int| 0 <= i < text.len() implies text[i] == whole[i] by {
        if i < m {
            lemma_spelled_sextet(text, i);
            lemma_value_symbol(text[i]);
        }
    }
    assert(text =~= whole.take(text.len() as int));
}

/// Where the symbols of `n` bytes end in a group of two or three, the bytes
/// end with the one or two that this group spells.
proof fn lemma_last_group(n: nat)
    ensures
        encoded_len(n) == 4 * ((symbols_len(n) + 3) / 4),
        symbols_len(n) % 4 == 2 ==> 3 * ((symbols_len(n) - 1) / 4) + 1 == n,
        symbols_len(n) % 4 == 3 ==> 3 * ((symbols_len(n) - 1) / 4) + 2 == n,
{
    let q = n / 3;
    if n % 3 == 0 {
        assert(n == 3 * q && symbols_len(n) == 4 * q);
    } else if n % 3 == 1 {
        assert(n == 3 * q + 1 && symbols_len(n) == 4 * q + 2);
    } else {
        assert(n == 3 * q + 2 && symbols_len(n) == 4 * q + 3);
    }
}

/// A text of some bytes, with or without its padding, is well formed.
pub proof fn lemma_loose_form_is_well_formed(text: Seq<u8>, bytes: Seq<u8>)
    requires
        is_loose_form(text, bytes),
    ensures
        is_well_formed(text),
{
    let n = bytes.len();
    let m = symbols_len(n) as int;
    lemma_loose_form_symbols(text, bytes);
    lemma_lengths(n);
    lemma_last_group(n);
    if m % 4 == 2 || m % 4 == 3 {
        lemma_sextet_range(bytes, m - 1);
        lemma_symbol_value(sextet(bytes, m - 1));
        assert(text[m - 1] == symbol(sextet(bytes, m - 1)));
        assert(byte_or_zero(bytes, n as int) == 0);
    }
}

/// A text in whole groups of four that holds all the symbols of `n` bytes,
/// and is no longer than their text, is as long as their text.
proof fn lemma_whole_len(len: nat, n: nat)
    requires
        symbols_len(n) <= len <= encoded_len(n),
        len % 4 == 0,
    ensures
        len == encoded_len(n),
{
}

/// The well-formed texts that come in whole groups of four are the Base64
/// texts.
pub proof fn lemma_well_formed_whole(text: Seq<u8>)
    requires
        is_well_formed(text),
        text.len() % 4 == 0,
    ensures
        text == encoded(spelled(text)),
{
    let bytes = spelled(text);
    lemma_well_formed_is_loose_form(text);
    lemma_whole_len(text.len(), bytes.len());
    assert(encoded(bytes).len() == text.len());
    assert(encoded(bytes).take(text.len() as int) =~= encoded(bytes));
}

/// Decoding succeeds exactly on the well-formed texts, of which strict
/// decoding takes those that come in whole groups of four.
pub proof fn lemma_decodable(options: Base64DecodeOptions, text: Seq<u8>)
    ensures
        decoding(options, text) is Some <==> {
            &&& is_well_formed(examined(options, text))
            &&& options == Base64DecodeOptions::Strict ==> text.len() % 4 == 0
        },
{
    let read = examined(options, text);
    let bytes = spelled(read);
    match options {
        Base64DecodeOptions::Strict => {
            if text == encoded(bytes) {
                lemma_encoded_is_loose_form(bytes);
                lemma_lengths(bytes.len());
                lemma_loose_form_is_well_formed(text, bytes);
            }
            if is_well_formed(text) && text.len() % 4 == 0 {
                lemma_well_formed_whole(text);
            }
        },
        Base64DecodeOptions::Forgiving => {
            if is_loose_form(read, bytes) {
                lemma_loose_form_is_well_formed(read, bytes);
            }
            if is_well_formed(read) {
                lemma_well_formed_is_loose_form(read);
            }
        },
    }
}

} // verus!
