//! Decoding Base45 text to bytes.
//!
//! The text is read in groups of three symbols. A full group is the number
//! `c + d * 45 + e * 2025` of its symbols' indices and gives two bytes, high
//! byte first; a last group of two symbols is the number `c + d * 45` and
//! gives one byte. Text is rejected as a whole when it holds a byte that is
//! no symbol, ends in a group of one symbol, or has a group whose number
//! does not fit the bytes it stands for.

use crate::alphabet::{self, index_of, is_symbol, lemma_symbol_of_index, SIZE, SIZE_SIZE};
use vstd::prelude::*;

verus! {

/// The error type returned when the input is not a valid Base45 string.
#[derive(PartialEq, Eq, Structural, Clone, Copy, Debug)]
pub struct DecodeError;

impl DecodeError {
    /// The message of the error: `Invalid base45 string`.
    pub fn message(&self) -> (s: String)
        ensures
            s@ == "Invalid base45 string"@,
    {
        "Invalid base45 string".to_owned()
    }
}

/// Number of bytes that `m` symbols stand for, where `m % 3 != 1`.
pub open spec fn decoded_len(m: nat) -> nat {
    2 * (m / 3) + if m % 3 == 2 {
        1nat
    } else {
        0nat
    }
}

/// The index of the symbol at position `i` of `text`.
pub open spec fn index_at(text: Seq<u8>, i: int) -> int
    recommends
        0 <= i < text.len(),
        is_symbol(text[i]),
{
    index_of(text[i])->0 as int
}

/// The number that group `g` of `text` denotes: three symbols, or the last
/// two of a text whose length is 2 modulo 3.
pub open spec fn symbol_unit(text: Seq<u8>, g: int) -> int
    recommends
        0 <= 3 * g + 1 < text.len(),
{
    if 3 * g + 2 < text.len() {
        index_at(text, 3 * g) + index_at(text, 3 * g + 1) * 45 + index_at(text, 3 * g + 2) * 2025
    } else {
        index_at(text, 3 * g) + index_at(text, 3 * g + 1) * 45
    }
}

/// Whether `text` is Base45: symbols only, no last group of one symbol,
/// every full group at most `0xFFFF` and a last group of two at most `0xFF`.
pub open spec fn well_formed(text: Seq<u8>) -> bool {
    &&& forall|i: int| 0 <= i < text.len() ==> is_symbol(#[trigger] text[i])
    &&& text.len() % 3 != 1
    &&& forall|g: int| 0 <= g < text.len() / 3 ==> #[trigger] symbol_unit(text, g) <= 0xFFFF
    &&& text.len() % 3 == 2 ==> symbol_unit(text, text.len() as int / 3) <= 0xFF
}

/// The byte at position `j` of the decoding of well-formed `text`.
pub open spec fn decoded_byte(text: Seq<u8>, j: int) -> u8
    recommends
        0 <= j < decoded_len(text.len()),
{
    let v = symbol_unit(text, j / 2);
    if 3 * (j / 2) + 2 < text.len() {
        if j % 2 == 0 {
            (v / 256) as u8
        } else {
            (v % 256) as u8
        }
    } else {
        v as u8
    }
}

/// The bytes that well-formed `text` stands for.
pub open spec fn decoded(text: Seq<u8>) -> Seq<u8> {
    Seq::new(decoded_len(text.len()), |j: int| decoded_byte(text, j))
}

/// The index of a symbol, or the error for a byte that is none.
fn symbol_index(v: u8) -> (r: Result<u8, DecodeError>)
    ensures
        r is Ok <==> is_symbol(v),
        r matches Ok(i) ==> index_of(v) == Some(i) && i < 45,
{
    proof {
        lemma_symbol_of_index(v);
    }
    match alphabet::decode(v) {
        Some(i) => Ok(i),
        None => Err(DecodeError),
    }
}

/// The indices of three symbols, or the error when one of the bytes is none.
fn group_indices(a: u8, b: u8, c: u8) -> (r: Result<(u8, u8, u8), DecodeError>)
    ensures
        r is Ok <==> is_symbol(a) && is_symbol(b) && is_symbol(c),
        r matches Ok(t) ==> {
            &&& index_of(a) == Some(t.0) && t.0 < 45
            &&& index_of(b) == Some(t.1) && t.1 < 45
            &&& index_of(c) == Some(t.2) && t.2 < 45
        },
{
    Ok((symbol_index(a)?, symbol_index(b)?, symbol_index(c)?))
}

/// The two bytes of a full group with indices `c`, `d`, `e`, or the error
/// when its number is above `0xFFFF`.
fn group_bytes(c: u8, d: u8, e: u8) -> (r: Result<(u8, u8), DecodeError>)
    requires
        c < 45,
        d < 45,
        e < 45,
    ensures
        r is Ok <==> c + d * 45 + e * 2025 <= 0xFFFF,
        r matches Ok(xy) ==> {
            &&& xy.0 == (c + d * 45 + e * 2025) / 256
            &&& xy.1 == (c + d * 45 + e * 2025) % 256
        },
{
    let v: u32 = (c as u32) + (d as u32 * SIZE) + (e as u32) * SIZE_SIZE;
    if v <= 0xFFFF {
        let x: u32 = (v >> 8) & 0xFF;
        let y: u32 = v & 0xFF;
        assert(x == v / 256 && y == v % 256) by (bit_vector)
            requires
                v <= 0xFFFF,
                x == (v >> 8) & 0xFF,
                y == v & 0xFF,
        ;
        Ok((x as u8, y as u8))
    } else {
        Err(DecodeError)
    }
}

/// The byte of a last group with indices `c`, `d`, or the error when its
/// number is above `0xFF`.
fn last_byte(c: u8, d: u8) -> (r: Result<u8, DecodeError>)
    requires
        c < 45,
        d < 45,
    ensures
        r is Ok <==> c + d * 45 <= 0xFF,
        r matches Ok(x) ==> x == c + d * 45,
{
    let v: u32 = c as u32 + (d as u32 * SIZE);
    if v <= 0xFF {
        Ok(v as u8)
    } else {
        Err(DecodeError)
    }
}

fn decode_intl(input: &[u8]) -> (r: Result<Vec<u8>, DecodeError>)
    ensures
        r is Ok <==> well_formed(input@),
        r matches Ok(output) ==> output@ == decoded(input@),
{
    let n: usize = input.len();
    let mut output: Vec<u8> = Vec::with_capacity(
        2 * (n / 3) + if n % 3 == 2 {
            1
        } else {
            0
        },
    );
    let mut i: usize = 0;
    while n - i >= 3
        invariant
            n == input@.len(),
            i <= n,
            i % 3 == 0,
            output@.len() == 2 * (i / 3),
            forall|k: int| 0 <= k < i ==> is_symbol(#[trigger] input@[k]),
            forall|g: int| 0 <= g < i / 3 ==> #[trigger] symbol_unit(input@, g) <= 0xFFFF,
            forall|j: int| 0 <= j < output@.len() ==> output@[j] == decoded_byte(input@, j),
        decreases n - i,
    {
        let (c, d, e): (u8, u8, u8) = group_indices(input[i], input[i + 1], input[i + 2])?;
        assert(symbol_unit(input@, i as int / 3) == c + d * 45 + e * 2025);
        let (x, y): (u8, u8) = group_bytes(c, d, e)?;
        output.push(x);
        output.push(y);
        i += 3;
    }
    if n - i == 2 {
        let c: u8 = symbol_index(input[i])?;
        let d: u8 = symbol_index(input[i + 1])?;
        assert(symbol_unit(input@, i as int / 3) == c + d * 45);
        output.push(last_byte(c, d)?);
    } else if n - i == 1 {
        return Err(DecodeError);
    }
    assert(output@ =~= decoded(input@));
    Ok(output)
}

/// Decode Base45 text, given as its bytes.
///
/// Succeeds exactly on [`well_formed`] text and then returns the bytes of
/// [`decoded`], [`decoded_len`] many. The further clauses name each way in
/// which text is rejected: a byte outside the alphabet, a length of 1 modulo
/// 3, a full group above `0xFFFF`, a last group of two above `0xFF`.
pub fn decode(input: &[u8]) -> (r: Result<Vec<u8>, DecodeError>)
    ensures
        r is Ok <==> well_formed(input@),
        r matches Ok(output) ==> output@ == decoded(input@) && output@.len() == decoded_len(
            input@.len(),
        ),
        forall|i: int| 0 <= i < input@.len() && !is_symbol(#[trigger] input@[i]) ==> r is Err,
        input@.len() % 3 == 1 ==> r is Err,
        forall|i: int|
            #![trigger input@[i]]
            0 <= i && i + 2 < input@.len() && i % 3 == 0 && symbol_unit(input@, i / 3) > 0xFFFF
                ==> r is Err,
        input@.len() % 3 == 2 && symbol_unit(input@, input@.len() as int / 3) > 0xFF ==> r is Err,
{
    decode_intl(input)
}

} // verus!
