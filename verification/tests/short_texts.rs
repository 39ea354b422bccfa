use rtc_base64::{rs_base64_decode, rs_base64_encode, strip_whitespace, Base64DecodeOptions};
use std::collections::HashMap;

const SYMBOLS: &[u8] = b"ABCDEFGHIJKLMNOPQRSTUVWXYZabcdefghijklmnopqrstuvwxyz0123456789+/";

const LETTERS: [u8; 9] = [b'A', b'Q', b'R', b'w', b'/', b'=', b' ', b'!', 0x0b];

fn decode(text: &[u8], options: Base64DecodeOptions) -> Option<Vec<u8>> {
    let mut out = Vec::new();
    if rs_base64_decode(text, options, &mut out) {
        Some(out)
    } else {
        assert!(out.is_empty());
        None
    }
}

/// Every text of at most four of the letters.
fn short_texts() -> Vec<Vec<u8>> {
    let mut texts: Vec<Vec<u8>> = vec![Vec::new()];
    let mut from = 0;
    for _ in 0..4 {
        let to = texts.len();
        for i in from..to {
            for c in LETTERS {
                let mut longer = texts[i].clone();
                longer.push(c);
                texts.push(longer);
            }
        }
        from = to;
    }
    texts
}

/// The texts of all sequences of at most two bytes, each with the bytes it
/// stands for; with `loose`, also without a part of the padding.
fn texts_of_short_inputs(loose: bool) -> HashMap<Vec<u8>, Vec<u8>> {
    let mut inputs: Vec<Vec<u8>> = vec![Vec::new()];
    for a in 0..=255u8 {
        inputs.push(vec![a]);
        for b in 0..=255u8 {
            inputs.push(vec![a, b]);
        }
    }
    let mut table = HashMap::new();
    for bytes in inputs {
        let mut text = rs_base64_encode(&bytes).into_bytes();
        table.insert(text.clone(), bytes.clone());
        while loose && text.last() == Some(&b'=') {
            text.pop();
            table.insert(text.clone(), bytes.clone());
        }
    }
    table
}

fn four_symbols(text: &[u8]) -> bool {
    text.len() == 4 && text.iter().all(|c| SYMBOLS.contains(c))
}

#[test]
fn strict_takes_exactly_the_texts_of_some_bytes() {
    let table = texts_of_short_inputs(false);
    let texts = short_texts();
    assert_eq!(texts.len(), 1 + 9 + 81 + 729 + 6561);
    let mut taken = 0;
    for text in texts {
        match decode(&text, Base64DecodeOptions::Strict) {
            Some(bytes) => {
                assert_eq!(rs_base64_encode(&bytes).into_bytes(), text);
                taken += 1;
            },
            None => {
                assert!(!table.contains_key(&text));
                assert!(!four_symbols(&text));
            },
        }
    }
    // The empty text; 5 * 5 * 5 * 5 texts of four symbols; 5 * 5 * 3 with one
    // `=`, where the third symbol ends in two zero bits (`A`, `Q`, `w`);
    // 5 * 3 with `==`, where the second ends in four.
    assert_eq!(taken, 1 + 625 + 75 + 15);
}

#[test]
fn forgiving_takes_exactly_the_texts_short_of_padding() {
    let table = texts_of_short_inputs(true);
    for text in short_texts() {
        let read = strip_whitespace(&text);
        match decode(&text, Base64DecodeOptions::Forgiving) {
            Some(bytes) => {
                let whole = rs_base64_encode(&bytes).into_bytes();
                let symbols = (4 * bytes.len() + 2) / 3;
                assert!(symbols <= read.len() && read.len() <= whole.len());
                assert_eq!(whole[..read.len()], read[..]);
            },
            None => {
                assert!(!table.contains_key(&read));
                assert!(!four_symbols(&read));
            },
        }
    }
}

#[test]
fn strict_reads_back_every_four_symbols() {
    for &a in SYMBOLS {
        for &b in SYMBOLS {
            for &c in [b'A', b'Z', b'a', b'z', b'0', b'9', b'+', b'/'].iter() {
                for &d in [b'A', b'M', b'f', b'4', b'+', b'/'].iter() {
                    let text = [a, b, c, d];
                    let bytes = decode(&text, Base64DecodeOptions::Strict).unwrap();
                    assert_eq!(bytes.len(), 3);
                    assert_eq!(rs_base64_encode(&bytes).as_bytes(), &text[..]);
                }
            }
        }
    }
}
