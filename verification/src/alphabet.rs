//! The sixty-four symbols of the standard Base64 alphabet, the padding byte,
//! and the whitespace that forgiving decoding skips.

use vstd::prelude::*;

verus! {

/// The byte `=`, which fills the last group of an encoded text up to four.
pub const PAD: u8 = 0x3d;

/// The symbol that stands for the six-bit value `v`: `A`-`Z` for 0 to 25,
/// `a`-`z` for 26 to 51, `0`-`9` for 52 to 61, then `+` and `/`.
pub open spec fn symbol(v: int) -> u8
    recommends
        0 <= v < 64,
{
    if v < 26 {
        ('A' as u8 + v) as u8
    } else if v < 52 {
        ('a' as u8 + (v - 26)) as u8
    } else if v < 62 {
        ('0' as u8 + (v - 52)) as u8
    } else if v == 62 {
        '+' as u8
    } else {
        '/' as u8
    }
}

/// Whether `c` is one of the sixty-four symbols.
pub open spec fn is_symbol(c: u8) -> bool {
    ||| 'A' as u8 <= c <= 'Z' as u8
    ||| 'a' as u8 <= c <= 'z' as u8
    ||| '0' as u8 <= c <= '9' as u8
    ||| c == '+' as u8
    ||| c == '/' as u8
}

/// The six-bit value that the symbol `c` stands for.
pub open spec fn symbol_value(c: u8) -> int
    recommends
        is_symbol(c),
{
    if 'A' as u8 <= c <= 'Z' as u8 {
        c - 'A' as u8
    } else if 'a' as u8 <= c <= 'z' as u8 {
        c - 'a' as u8 + 26
    } else if '0' as u8 <= c <= '9' as u8 {
        c - '0' as u8 + 52
    } else if c == '+' as u8 {
        62
    } else {
        63
    }
}

/// Whether `b` is ASCII whitespace: space, tab, line feed, vertical tab,
/// form feed or carriage return.
pub open spec fn spec_is_whitespace(b: u8) -> bool {
    ||| b == 0x20
    ||| b == 0x09
    ||| b == 0x0a
    ||| b == 0x0b
    ||| b == 0x0c
    ||| b == 0x0d
}

/// Tells whether `b` is ASCII whitespace.
#[verifier::when_used_as_spec(spec_is_whitespace)]
pub fn is_whitespace(b: u8) -> (r: bool)
    ensures
        r == spec_is_whitespace(b),
{
    b == 0x20 || (0x09 <= b && b <= 0x0d)
}

/// Every six-bit value has a symbol of its own, and `symbol_value` finds the
/// value again. No symbol is the padding byte or whitespace.
pub proof fn lemma_symbol_value(v: int)
    requires
        0 <= v < 64,
    ensures
        is_symbol(symbol(v)),
        symbol_value(symbol(v)) == v,
        symbol(v) != PAD,
        !is_whitespace(symbol(v)),
{
}

/// Every symbol stands for a six-bit value, whose symbol it is.
pub proof fn lemma_value_symbol(c: u8)
    requires
        is_symbol(c),
    ensures
        0 <= symbol_value(c) < 64,
        symbol(symbol_value(c)) == c,
        c != PAD,
        !is_whitespace(c),
{
}

} // verus!
