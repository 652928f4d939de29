//! Encoding bytes to Base45 text.
//!
//! The input is read in groups of two bytes. A full group is the number
//! `b0 * 256 + b1` and is written as three symbols; a last single byte is the
//! number `b0` and is written as two. The symbols of a group are the base-45
//! digits of its number, least significant first.

use crate::alphabet::{self, is_symbol, lemma_index_of_symbol, symbol_of, SIZE, SIZE_SIZE};
use crate::text::{as_text, ascii_string};
use vstd::pervasive::unreached;
use vstd::prelude::*;
use vstd::utf8::{encode_utf8, is_ascii_chars};

verus! {

/// Number of symbols that stand for `n` bytes.
pub open spec fn encoded_len(n: nat) -> nat {
    3 * (n / 2) + if n % 2 == 1 {
        2nat
    } else {
        0nat
    }
}

/// The number that group `g` of `bytes` denotes: two bytes, the first one the
/// high byte, or the single last byte of an odd-length input.
pub open spec fn byte_unit(bytes: Seq<u8>, g: int) -> int
    recommends
        0 <= 2 * g < bytes.len(),
{
    if 2 * g + 1 < bytes.len() {
        bytes[2 * g] * 256 + bytes[2 * g + 1]
    } else {
        bytes[2 * g] as int
    }
}

/// Base-45 digit `k` of `v`, counted from the least significant one, for
/// `0 <= v < 45 * 45 * 45` and `k` in `0..3`.
pub open spec fn digit(v: int, k: int) -> int {
    if k == 0 {
        (v % 2025) % 45
    } else if k == 1 {
        (v % 2025) / 45
    } else {
        v / 2025
    }
}

/// The symbol at position `k` of the encoding of `bytes`.
pub open spec fn encoded_symbol(bytes: Seq<u8>, k: int) -> u8
    recommends
        0 <= k < encoded_len(bytes.len()),
{
    symbol_of(digit(byte_unit(bytes, k / 3), k % 3))
}

/// The Base45 encoding of `bytes`, as a sequence of symbols.
pub open spec fn encoded(bytes: Seq<u8>) -> Seq<u8> {
    Seq::new(encoded_len(bytes.len()), |k: int| encoded_symbol(bytes, k))
}

/// Alphabet closure: every position of an encoding holds a symbol of the
/// alphabet, which is an ASCII byte.
pub proof fn lemma_encoded_symbols(bytes: Seq<u8>, k: int)
    requires
        0 <= k < encoded_len(bytes.len()),
    ensures
        is_symbol(encoded(bytes)[k]),
        encoded(bytes)[k] < 128,
{
    let d = digit(byte_unit(bytes, k / 3), k % 3);
    lemma_index_of_symbol(d);
}

fn divmod<const N: u32>(x: u32) -> (r: (u32, u32))
    requires
        N > 0,
    ensures
        r.0 == x / N,
        r.1 == x % N,
{
    (x / N, x % N)
}

/// The symbol of an index that is known to be in range.
fn ae(b: u8) -> (ch: u8)
    requires
        b < 45,
    ensures
        ch == symbol_of(b as int),
{
    match alphabet::encode(b) {
        Some(ch) => ch,
        None => unreached(),
    }
}

/// Appends the three symbols of a full group.
fn encode_pair(first: u8, second: u8, s: &mut Vec<u8>)
    ensures
        final(s)@ == old(s)@ + seq![
            symbol_of(digit(first * 256 + second, 0)),
            symbol_of(digit(first * 256 + second, 1)),
            symbol_of(digit(first * 256 + second, 2)),
        ],
{
    let v: u32 = (first as u32 * 256) + second as u32;
    let (e, rest): (u32, u32) = divmod::<SIZE_SIZE>(v);
    let (d, c): (u32, u32) = divmod::<SIZE>(rest);
    s.push(ae(c as u8));
    s.push(ae(d as u8));
    s.push(ae(e as u8));
}

fn encode_buffer(input: &[u8]) -> (out: String)
    ensures
        out@ == as_text(encoded(input@)),
        encode_utf8(out@) == encoded(input@),
        is_ascii_chars(out@),
{
    let n: usize = input.len();
    // Sized up front for the whole text, where that size can be named.
    let mut s: Vec<u8> = match n.checked_add(n / 2 + n % 2) {
        Some(capacity) => Vec::with_capacity(capacity),
        None => Vec::new(),
    };
    let mut i: usize = 0;
    while n - i >= 2
        invariant
            n == input@.len(),
            i <= n,
            i % 2 == 0,
            s@.len() == 3 * (i / 2),
            forall|k: int| 0 <= k < s@.len() ==> s@[k] == encoded_symbol(input@, k),
        decreases n - i,
    {
        encode_pair(input[i], input[i + 1], &mut s);
        i += 2;
    }
    // Final byte
    if i < n {
        let (d, c): (u32, u32) = divmod::<SIZE>(input[i] as u32);
        s.push(ae(c as u8));
        s.push(ae(d as u8));
    }
    proof {
        assert(s@ =~= encoded(input@));
        assert forall|k: int| 0 <= k < s@.len() implies #[trigger] s@[k] < 128 by {
            lemma_encoded_symbols(input@, k);
        }
    }
    ascii_string(s)
}

/// Encode bytes to Base45 text.
///
/// The result spells the symbols of [`encoded`], one ASCII character each,
/// so its UTF-8 bytes are those symbols. It has [`encoded_len`] characters
/// and every one of them belongs to the alphabet.
pub fn encode(input: &[u8]) -> (out: String)
    ensures
        out@ == as_text(encoded(input@)),
        encode_utf8(out@) == encoded(input@),
        out@.len() == encoded_len(input@.len()),
        is_ascii_chars(out@),
        forall|i: int| 0 <= i < out@.len() ==> is_symbol(#[trigger] out@[i] as u8),
{
    let out: String = encode_buffer(input);
    proof {
        assert forall|i: int| 0 <= i < out@.len() implies is_symbol(#[trigger] out@[i] as u8) by {
            lemma_encoded_symbols(input@, i);
        }
    }
    out
}

/// Encode a buffer to Base45 text. Equivalent to [`encode`].
pub fn encode_from_buffer(input: &[u8]) -> (out: String)
    ensures
        out@ == as_text(encoded(input@)),
        encode_utf8(out@) == encoded(input@),
        out@.len() == encoded_len(input@.len()),
        is_ascii_chars(out@),
        forall|i: int| 0 <= i < out@.len() ==> is_symbol(#[trigger] out@[i] as u8),
{
    encode(input)
}

} // verus!
