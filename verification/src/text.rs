//! What the Base64 text of a byte sequence is, after RFC 4648, and what can
//! be read off such a text.
//!
//! The bytes are taken as one string of bits, high bits first. Every six bits
//! give a symbol. A last group of three bytes that is short of one or two is
//! filled up with zero bits, and its text with one or two padding bytes.

use vstd::prelude::*;
use crate::alphabet::{is_symbol, lemma_symbol_value, symbol, symbol_value, PAD};

verus! {

/// The byte at `i`, or zero past the end: a last group that is short of three
/// bytes is filled up with zero bits.
pub open spec fn byte_or_zero(bytes: Seq<u8>, i: int) -> int {
    if 0 <= i < bytes.len() {
        bytes[i] as int
    } else {
        0
    }
}

/// The `i`-th six-bit value of `bytes`, read as one string of bits, high bits
/// first: three bytes give four values.
pub open spec fn sextet(bytes: Seq<u8>, i: int) -> int {
    let first = 3 * (i / 4);
    let b0 = byte_or_zero(bytes, first);
    let b1 = byte_or_zero(bytes, first + 1);
    let b2 = byte_or_zero(bytes, first + 2);
    if i % 4 == 0 {
        b0 / 4
    } else if i % 4 == 1 {
        (b0 % 4) * 16 + b1 / 16
    } else if i % 4 == 2 {
        (b1 % 16) * 4 + b2 / 64
    } else {
        b2 % 64
    }
}

/// The number of symbols that `n` bytes take: one for every six bits begun.
pub open spec fn symbols_len(n: nat) -> nat {
    (4 * n + 2) / 3
}

/// The length of the text of `n` bytes: four bytes for every three begun.
pub open spec fn encoded_len(n: nat) -> nat {
    4 * ((n + 2) / 3)
}

/// The Base64 text of `bytes`: the symbols of its six-bit values, then
/// padding up to the next multiple of four.
pub open spec fn encoded(bytes: Seq<u8>) -> Seq<u8> {
    Seq::new(
        encoded_len(bytes.len()),
        |i: int|
            if i < symbols_len(bytes.len()) {
                symbol(sextet(bytes, i))
            } else {
                PAD
            },
    )
}

/// The Base64 text of `bytes` as characters.
pub open spec fn encoded_text(bytes: Seq<u8>) -> Seq<char> {
    Seq::new(encoded_len(bytes.len()), |i: int| encoded(bytes)[i] as char)
}

/// Whether `text` is the Base64 text of `bytes` with none, some or all of its
/// padding left off.
pub open spec fn is_loose_form(text: Seq<u8>, bytes: Seq<u8>) -> bool {
    &&& symbols_len(bytes.len()) <= text.len() <= encoded_len(bytes.len())
    &&& text == encoded(bytes).take(text.len() as int)
}

/// The length of `text` without the padding bytes at its end.
pub open spec fn significant_len(text: Seq<u8>) -> nat
    decreases text.len(),
{
    if text.len() > 0 && text.last() == PAD {
        significant_len(text.drop_last())
    } else {
        text.len()
    }
}

/// The byte number `k` that the symbols of `text` spell: each byte takes its
/// eight bits from two neighbouring symbols.
pub open spec fn spelled_byte(text: Seq<u8>, k: int) -> int {
    let first = 4 * (k / 3);
    let v0 = symbol_value(text[first]);
    let v1 = symbol_value(text[first + 1]);
    let v2 = symbol_value(text[first + 2]);
    let v3 = symbol_value(text[first + 3]);
    if k % 3 == 0 {
        v0 * 4 + v1 / 16
    } else if k % 3 == 1 {
        (v1 % 16) * 16 + v2 / 4
    } else {
        (v2 % 4) * 64 + v3
    }
}

/// The bytes that the symbols of `text` spell: three for every four symbols,
/// one for two symbols left over, two for three.
pub open spec fn spelled(text: Seq<u8>) -> Seq<u8> {
    Seq::new(significant_len(text) * 3 / 4, |k: int| spelled_byte(text, k) as u8)
}

/// Every six-bit value of a byte sequence is below sixty-four.
pub proof fn lemma_sextet_range(bytes: Seq<u8>, i: int)
    requires
        0 <= i,
    ensures
        0 <= sextet(bytes, i) < 64,
{
}

/// How the two lengths go together: the text is the symbols and at most two
/// padding bytes, it comes in groups of four, its last group never holds a
/// single symbol, and the number of symbols gives the number of bytes back.
pub proof fn lemma_lengths(n: nat)
    ensures
        symbols_len(n) <= encoded_len(n) <= symbols_len(n) + 2,
        encoded_len(n) % 4 == 0,
        symbols_len(n) % 4 != 1,
        symbols_len(n) * 3 / 4 == n,
{
}

/// A text that is padding from `m` on, and holds another byte just before,
/// has `m` significant bytes.
pub proof fn lemma_significant_len(text: Seq<u8>, m: nat)
    requires
        m <= text.len(),
        forall|i: int| m <= i < text.len() ==> text[i] == PAD,
        m > 0 ==> text[m - 1] != PAD,
    ensures
        significant_len(text) == m,
    decreases text.len(),
{
    if text.len() > m {
        lemma_significant_len(text.drop_last(), m);
    }
}

/// In a text of `bytes`, with or without its padding, the significant bytes
/// are the symbols of the six-bit values of `bytes`, and all the rest is
/// padding.
pub proof fn lemma_loose_form_symbols(text: Seq<u8>, bytes: Seq<u8>)
    requires
        is_loose_form(text, bytes),
    ensures
        significant_len(text) == symbols_len(bytes.len()),
        forall|i: int|
            0 <= i < symbols_len(bytes.len()) ==> #[trigger] text[i] == symbol(sextet(bytes, i))
                && is_symbol(text[i]),
        forall|i: int| symbols_len(bytes.len()) <= i < text.len() ==> #[trigger] text[i] == PAD,
{
    let m = symbols_len(bytes.len());
    lemma_lengths(bytes.len());
    assert forall|i: int| 0 <= i < m implies #[trigger] text[i] == symbol(sextet(bytes, i))
        && is_symbol(text[i]) by {
        assert(text[i] == encoded(bytes)[i]);
        lemma_sextet_range(bytes, i);
        lemma_symbol_value(sextet(bytes, i));
    }
    assert forall|i: int| m <= i < text.len() implies #[trigger] text[i] == PAD by {
        assert(text[i] == encoded(bytes)[i]);
    }
    if m > 0 {
        assert(text[m - 1] != PAD);
    }
    lemma_significant_len(text, m);
}

/// The four six-bit values of three bytes hold the bits of each of them.
proof fn lemma_regroup(b0: int, b1: int, b2: int)
    requires
        0 <= b0 < 256,
        0 <= b1 < 256,
        0 <= b2 < 256,
    ensures
        (b0 / 4) * 4 + ((b0 % 4) * 16 + b1 / 16) / 16 == b0,
        (((b0 % 4) * 16 + b1 / 16) % 16) * 16 + ((b1 % 16) * 4 + b2 / 64) / 4 == b1,
        (((b1 % 16) * 4 + b2 / 64) % 4) * 64 + b2 % 64 == b2,
{
}

/// The six-bit values of the group that holds the byte at `k` spell that
/// byte.
proof fn lemma_sextets_spell(bytes: Seq<u8>, k: int)
    requires
        0 <= k < bytes.len(),
    ensures
        ({
            let first = 4 * (k / 3);
            let v0 = sextet(bytes, first);
            let v1 = sextet(bytes, first + 1);
            let v2 = sextet(bytes, first + 2);
            let v3 = sextet(bytes, first + 3);
            bytes[k] == if k % 3 == 0 {
                v0 * 4 + v1 / 16
            } else if k % 3 == 1 {
                (v1 % 16) * 16 + v2 / 4
            } else {
                (v2 % 4) * 64 + v3
            }
        }),
{
    let g = k / 3;
    let first = 4 * g;
    assert(first / 4 == g && first % 4 == 0);
    assert((first + 1) / 4 == g && (first + 1) % 4 == 1);
    assert((first + 2) / 4 == g && (first + 2) % 4 == 2);
    assert((first + 3) / 4 == g && (first + 3) % 4 == 3);
    let b0 = byte_or_zero(bytes, 3 * g);
    let b1 = byte_or_zero(bytes, 3 * g + 1);
    let b2 = byte_or_zero(bytes, 3 * g + 2);
    lemma_regroup(b0, b1, b2);
    assert(sextet(bytes, first) == b0 / 4);
    assert(sextet(bytes, first + 1) == (b0 % 4) * 16 + b1 / 16);
    assert(sextet(bytes, first + 2) == (b1 % 16) * 4 + b2 / 64);
    assert(sextet(bytes, first + 3) == b2 % 64);
    assert(k == 3 * g + k % 3);
}

/// The byte that the symbols of a text of `bytes` spell at `k` is the byte
/// of `bytes` at `k`.
pub proof fn lemma_spelled_byte(text: Seq<u8>, bytes: Seq<u8>, k: int)
    requires
        is_loose_form(text, bytes),
        0 <= k < bytes.len(),
    ensures
        spelled_byte(text, k) == bytes[k],
{
    lemma_loose_form_symbols(text, bytes);
    lemma_sextets_spell(bytes, k);
    let first = 4 * (k / 3);
    let m = symbols_len(bytes.len()) as int;
    assert(first + k % 3 + 1 < m);
    assert forall|j: int| 0 <= j <= k % 3 + 1 implies symbol_value(#[trigger] text[first + j])
        == sextet(bytes, first + j) by {
        lemma_sextet_range(bytes, first + j);
        lemma_symbol_value(sextet(bytes, first + j));
    }
    assert(symbol_value(text[first + 0]) == sextet(bytes, first));
    assert(symbol_value(text[first + 1]) == sextet(bytes, first + 1));
    if k % 3 >= 1 {
        assert(symbol_value(text[first + 2]) == sextet(bytes, first + 2));
    }
    if k % 3 == 2 {
        assert(symbol_value(text[first + 3]) == sextet(bytes, first + 3));
    }
}

/// Reading a text of `bytes`, with or without its padding, gives `bytes`
/// back.
pub proof fn lemma_loose_form_spells(text: Seq<u8>, bytes: Seq<u8>)
    requires
        is_loose_form(text, bytes),
    ensures
        spelled(text) == bytes,
{
    lemma_loose_form_symbols(text, bytes);
    lemma_lengths(bytes.len());
    assert forall|k: int| 0 <= k < bytes.len() implies spelled(text)[k] == bytes[k] by {
        lemma_spelled_byte(text, bytes, k);
    }
    assert(spelled(text) =~= bytes);
}

/// The Base64 text of `bytes` is also a text of `bytes` with none of the
/// padding left off.
pub proof fn lemma_encoded_is_loose_form(bytes: Seq<u8>)
    ensures
        is_loose_form(encoded(bytes), bytes),
{
    lemma_lengths(bytes.len());
    assert(encoded(bytes).take(encoded(bytes).len() as int) =~= encoded(bytes));
}

} // verus!
