//! The 45-symbol alphabet and its two lookups.
//!
//! A symbol is one ASCII byte of [`TABLE`]; its index is its position there.
//! [`encode`] maps an index to its symbol and [`decode`] maps a byte back to
//! its index, or to `None` when the byte is no symbol.

use vstd::prelude::*;

verus! {

/// Number of symbols in the alphabet.
pub const SIZE: u32 = 45;

/// Weight of the third symbol of a group: `SIZE * SIZE`.
pub const SIZE_SIZE: u32 = SIZE * SIZE;

/// The symbols in index order, as ASCII bytes:
/// `0123456789ABCDEFGHIJKLMNOPQRSTUVWXYZ $%*+-./:`.
pub const TABLE: [u8; 45] = [
    0x30, 0x31, 0x32, 0x33, 0x34, 0x35, 0x36, 0x37, 0x38, 0x39,
    0x41, 0x42, 0x43, 0x44, 0x45, 0x46, 0x47, 0x48, 0x49, 0x4A,
    0x4B, 0x4C, 0x4D, 0x4E, 0x4F, 0x50, 0x51, 0x52, 0x53, 0x54,
    0x55, 0x56, 0x57, 0x58, 0x59, 0x5A, 0x20, 0x24, 0x25, 0x2A,
    0x2B, 0x2D, 0x2E, 0x2F, 0x3A,
];

/// The symbol that stands for index `i`, for `0 <= i < 45`.
pub open spec fn symbol_of(i: int) -> u8
    recommends
        0 <= i < 45,
{
    TABLE@[i]
}

/// The index that byte `c` stands for, or `None` when `c` is no symbol.
///
/// Digits count from 0, capital letters from 10, and the nine remaining
/// symbols take 36 to 44. [`lemma_index_of_symbol`] and
/// [`lemma_symbol_of_index`] show that this is the position of `c` in
/// [`TABLE`].
pub open spec fn index_of(c: u8) -> Option<u8> {
    if 0x30 <= c <= 0x39 {
        Some((c - 0x30) as u8)
    } else if 0x41 <= c <= 0x5A {
        Some((c - 0x41 + 10) as u8)
    } else if c == 0x20 {
        Some(36u8)
    } else if c == 0x24 {
        Some(37u8)
    } else if c == 0x25 {
        Some(38u8)
    } else if c == 0x2A {
        Some(39u8)
    } else if c == 0x2B {
        Some(40u8)
    } else if c == 0x2D {
        Some(41u8)
    } else if c == 0x2E {
        Some(42u8)
    } else if c == 0x2F {
        Some(43u8)
    } else if c == 0x3A {
        Some(44u8)
    } else {
        None
    }
}

/// Whether byte `c` is one of the 45 symbols.
pub open spec fn is_symbol(c: u8) -> bool {
    index_of(c) is Some
}

/// Looking up the symbol of an index gives that index back, and every symbol
/// is an ASCII byte.
pub proof fn lemma_index_of_symbol(i: int)
    requires
        0 <= i < 45,
    ensures
        index_of(symbol_of(i)) == Some(i as u8),
        symbol_of(i) < 128,
{
}

/// A byte that has an index is the symbol of that index, and the index is
/// below 45.
pub proof fn lemma_symbol_of_index(c: u8)
    ensures
        index_of(c) matches Some(i) ==> i < 45 && symbol_of(i as int) == c,
{
    if let Some(i) = index_of(c) {
        lemma_index_of_symbol(i as int);
    }
}

/// The table holds 45 distinct symbols: two indices with the same symbol are
/// the same index.
pub proof fn lemma_symbols_distinct(i: int, j: int)
    requires
        0 <= i < 45,
        0 <= j < 45,
        symbol_of(i) == symbol_of(j),
    ensures
        i == j,
{
    lemma_index_of_symbol(i);
    lemma_index_of_symbol(j);
}

/// Decode a byte to its index.
pub fn decode(v: u8) -> (r: Option<u8>)
    ensures
        r == index_of(v),
{
    Some(
        match v {
            // '0' to '9'
            0x30 => 0,
            0x31 => 1,
            0x32 => 2,
            0x33 => 3,
            0x34 => 4,
            0x35 => 5,
            0x36 => 6,
            0x37 => 7,
            0x38 => 8,
            0x39 => 9,
            // 'A' to 'Z'
            0x41 => 10,
            0x42 => 11,
            0x43 => 12,
            0x44 => 13,
            0x45 => 14,
            0x46 => 15,
            0x47 => 16,
            0x48 => 17,
            0x49 => 18,
            0x4A => 19,
            0x4B => 20,
            0x4C => 21,
            0x4D => 22,
            0x4E => 23,
            0x4F => 24,
            0x50 => 25,
            0x51 => 26,
            0x52 => 27,
            0x53 => 28,
            0x54 => 29,
            0x55 => 30,
            0x56 => 31,
            0x57 => 32,
            0x58 => 33,
            0x59 => 34,
            0x5A => 35,
            // ' ', '$', '%', '*', '+', '-', '.', '/', ':'
            0x20 => 36,
            0x24 => 37,
            0x25 => 38,
            0x2A => 39,
            0x2B => 40,
            0x2D => 41,
            0x2E => 42,
            0x2F => 43,
            0x3A => 44,
            _ => return None,
        },
    )
}

/// Encode an index to its symbol; `None` for an index of 45 or more.
pub fn encode(n: u8) -> (r: Option<u8>)
    ensures
        r == (if n < 45 {
            Some(symbol_of(n as int))
        } else {
            None
        }),
{
    if n < 45 {
        Some(TABLE[n as usize])
    } else {
        None
    }
}

} // verus!
