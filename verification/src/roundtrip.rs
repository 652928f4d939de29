//! Encoding and decoding are inverse to each other.

use crate::alphabet::{index_of, lemma_index_of_symbol, lemma_symbol_of_index, symbol_of};
use crate::decode::{decoded, decoded_len, index_at, symbol_unit, well_formed};
use crate::encode::{byte_unit, digit, encoded, encoded_len};
use vstd::prelude::*;

verus! {

/// The symbol at position `k` of an encoding has as its index the digit that
/// the position stands for.
proof fn lemma_index_at_encoded(bytes: Seq<u8>, k: int)
    requires
        0 <= k < encoded_len(bytes.len()),
    ensures
        index_of(encoded(bytes)[k]) is Some,
        index_at(encoded(bytes), k) == digit(byte_unit(bytes, k / 3), k % 3),
{
    let d = digit(byte_unit(bytes, k / 3), k % 3);
    lemma_index_of_symbol(d);
}

/// Group `g` of an encoding denotes the number of group `g` of the bytes.
proof fn lemma_symbol_unit_encoded(bytes: Seq<u8>, g: int)
    requires
        0 <= 2 * g < bytes.len(),
    ensures
        symbol_unit(encoded(bytes), g) == byte_unit(bytes, g),
{
    lemma_index_at_encoded(bytes, 3 * g);
    lemma_index_at_encoded(bytes, 3 * g + 1);
    if 2 * g + 1 < bytes.len() {
        lemma_index_at_encoded(bytes, 3 * g + 2);
    }
}

/// Round trip: the encoding of any bytes is well-formed text, and decoding it
/// gives the bytes back.
pub proof fn lemma_decode_encode(bytes: Seq<u8>)
    ensures
        well_formed(encoded(bytes)),
        decoded(encoded(bytes)) == bytes,
{
    let text = encoded(bytes);
    assert forall|i: int| 0 <= i < text.len() implies index_of(#[trigger] text[i]) is Some by {
        lemma_index_at_encoded(bytes, i);
    }
    assert forall|g: int| 0 <= g < text.len() / 3 implies #[trigger] symbol_unit(text, g)
        <= 0xFFFF by {
        lemma_symbol_unit_encoded(bytes, g);
    }
    if text.len() % 3 == 2 {
        lemma_symbol_unit_encoded(bytes, text.len() as int / 3);
    }
    assert(decoded_len(text.len()) == bytes.len());
    assert forall|j: int| 0 <= j < bytes.len() implies decoded(text)[j] == bytes[j] by {
        lemma_symbol_unit_encoded(bytes, j / 2);
    }
}

/// The index of the symbol at position `k` of well-formed text is below 45,
/// and the symbol is the one of that index.
proof fn lemma_index_at_well_formed(text: Seq<u8>, k: int)
    requires
        well_formed(text),
        0 <= k < text.len(),
    ensures
        0 <= index_at(text, k) < 45,
        symbol_of(index_at(text, k)) == text[k],
{
    lemma_symbol_of_index(text[k]);
}

/// The digits of a number put together from three digits are those digits.
proof fn lemma_digits_of_group(c: int, d: int, e: int)
    requires
        0 <= c < 45,
        0 <= d < 45,
        0 <= e < 45,
    ensures
        digit(c + d * 45 + e * 2025, 0) == c,
        digit(c + d * 45 + e * 2025, 1) == d,
        digit(c + d * 45 + e * 2025, 2) == e,
{
}

/// Group `g` of the decoding of well-formed text denotes the number of group
/// `g` of the text.
proof fn lemma_byte_unit_decoded(text: Seq<u8>, g: int)
    requires
        well_formed(text),
        0 <= 3 * g < text.len(),
    ensures
        byte_unit(decoded(text), g) == symbol_unit(text, g),
{
    lemma_index_at_well_formed(text, 3 * g);
    lemma_index_at_well_formed(text, 3 * g + 1);
    if 3 * g + 2 < text.len() {
        lemma_index_at_well_formed(text, 3 * g + 2);
    }
}

/// In well-formed text, the index of the symbol at position `k` is the digit
/// of its group's number that the position stands for.
proof fn lemma_digit_of_symbol_unit(text: Seq<u8>, k: int)
    requires
        well_formed(text),
        0 <= k < text.len(),
    ensures
        digit(symbol_unit(text, k / 3), k % 3) == index_at(text, k),
{
    let g = k / 3;
    lemma_index_at_well_formed(text, 3 * g);
    lemma_index_at_well_formed(text, 3 * g + 1);
    if 3 * g + 2 < text.len() {
        lemma_index_at_well_formed(text, 3 * g + 2);
        lemma_digits_of_group(
            index_at(text, 3 * g),
            index_at(text, 3 * g + 1),
            index_at(text, 3 * g + 2),
        );
    } else {
        lemma_digits_of_group(index_at(text, 3 * g), index_at(text, 3 * g + 1), 0);
    }
}

/// Converse round trip: well-formed text is the encoding of the bytes it
/// decodes to, so no two well-formed texts stand for the same bytes.
pub proof fn lemma_encode_decode(text: Seq<u8>)
    requires
        well_formed(text),
    ensures
        encoded(decoded(text)) == text,
{
    let bytes = decoded(text);
    assert forall|k: int| 0 <= k < text.len() implies encoded(bytes)[k] == text[k] by {
        lemma_byte_unit_decoded(text, k / 3);
        lemma_digit_of_symbol_unit(text, k);
        lemma_index_at_well_formed(text, k);
    }
}

} // verus!
