//! Base45 encoding and decoding of byte buffers.
//!
//! Base45 writes every two bytes as three symbols of a 45-symbol alphabet,
//! and a last single byte as two. [`encode`] turns bytes into such text and
//! [`decode`] turns text, given as its bytes, back into the bytes or rejects
//! it as a whole.
//!
//! Both functions are stated against a model on sequences: [`encoded`] is the
//! text of a byte sequence, [`well_formed`] says which texts stand for bytes
//! and [`decoded`] says for which. [`lemma_decode_encode`] and
//! [`lemma_encode_decode`] show that the two are inverse to each other.

pub mod alphabet;
mod decode;
mod encode;
mod roundtrip;
mod text;

pub use decode::{
    decode, decoded, decoded_byte, decoded_len, index_at, symbol_unit, well_formed, DecodeError,
};
pub use encode::{
    byte_unit, digit, encode, encode_from_buffer, encoded, encoded_len, encoded_symbol,
    lemma_encoded_symbols,
};
pub use roundtrip::{lemma_decode_encode, lemma_encode_decode};
pub use text::as_text;
