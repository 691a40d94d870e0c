//! z-base-32: bytes written with thirty-two symbols, five bits each.

use vstd::prelude::*;

verus! {

/// The symbols, in the order of the five-bit numbers they stand for.
pub const Z32_SYMBOLS: &'static str = "ybndrfg8ejkmcpqxot1uwisza345h769";

/// A bit of a byte, counted from the most significant one.
pub open spec fn byte_bit(x: u8, j: int) -> nat {
    if j == 0 {
        x as nat / 128
    } else if j == 1 {
        x as nat / 64 % 2
    } else if j == 2 {
        x as nat / 32 % 2
    } else if j == 3 {
        x as nat / 16 % 2
    } else if j == 4 {
        x as nat / 8 % 2
    } else if j == 5 {
        x as nat / 4 % 2
    } else if j == 6 {
        x as nat / 2 % 2
    } else {
        x as nat % 2
    }
}

/// A bit of a byte sequence; past its end the bits are zero.
pub open spec fn bit(b: Seq<u8>, k: int) -> nat {
    if 0 <= k < 8 * b.len() {
        byte_bit(b[k / 8], k % 8)
    } else {
        0
    }
}

/// Five bits of a byte sequence, from bit `k` on, as a number.
pub open spec fn quintet(b: Seq<u8>, k: int) -> nat {
    16 * bit(b, k) + 8 * bit(b, k + 1) + 4 * bit(b, k + 2) + 2 * bit(b, k + 3) + bit(b, k + 4)
}

/// The z-base-32 text of a byte sequence: one symbol for each five bits, the
/// last one filled up with zero bits.
pub open spec fn z32_text(b: Seq<u8>) -> Seq<char> {
    Seq::new(
        ((8 * b.len() + 4) / 5) as nat,
        |i: int| Z32_SYMBOLS@[quintet(b, 5 * i) as int],
    )
}

/// The five-bit number that a symbol stands for.
spec fn symbol_value(c: char) -> nat {
    match c {
        'y' => 0,
        'b' => 1,
        'n' => 2,
        'd' => 3,
        'r' => 4,
        'f' => 5,
        'g' => 6,
        '8' => 7,
        'e' => 8,
        'j' => 9,
        'k' => 10,
        'm' => 11,
        'c' => 12,
        'p' => 13,
        'q' => 14,
        'x' => 15,
        'o' => 16,
        't' => 17,
        '1' => 18,
        'u' => 19,
        'w' => 20,
        'i' => 21,
        's' => 22,
        'z' => 23,
        'a' => 24,
        '3' => 25,
        '4' => 26,
        '5' => 27,
        'h' => 28,
        '7' => 29,
        '6' => 30,
        _ => 31,
    }
}

proof fn lemma_symbol_value(v: int)
    requires
        0 <= v < 32,
    ensures
        symbol_value(Z32_SYMBOLS@[v]) == v,
        Z32_SYMBOLS@[v] != '#',
{
    reveal_strlit("ybndrfg8ejkmcpqxot1uwisza345h769");
}

proof fn lemma_bit_bound(b: Seq<u8>, k: int)
    ensures
        bit(b, k) < 2,
{
}

proof fn lemma_quintet(b: Seq<u8>, k: int)
    ensures
        quintet(b, k) < 32,
{
    lemma_bit_bound(b, k);
    lemma_bit_bound(b, k + 1);
    lemma_bit_bound(b, k + 2);
    lemma_bit_bound(b, k + 3);
    lemma_bit_bound(b, k + 4);
}

proof fn lemma_quintet_bits(a: Seq<u8>, b: Seq<u8>, k: int)
    requires
        quintet(a, k) == quintet(b, k),
    ensures
        forall|j: int| k <= j < k + 5 ==> bit(a, j) == bit(b, j),
{
    assert forall|j: int| k <= j < k + 5 implies bit(a, j) == bit(b, j) by {
        lemma_bit_bound(a, k);
        lemma_bit_bound(a, k + 1);
        lemma_bit_bound(a, k + 2);
        lemma_bit_bound(a, k + 3);
        lemma_bit_bound(a, k + 4);
        lemma_bit_bound(b, k);
        lemma_bit_bound(b, k + 1);
        lemma_bit_bound(b, k + 2);
        lemma_bit_bound(b, k + 3);
        lemma_bit_bound(b, k + 4);
        assert(j == k || j == k + 1 || j == k + 2 || j == k + 3 || j == k + 4);
    }
}

proof fn lemma_byte_bits(x: u8, y: u8)
    requires
        forall|j: int| 0 <= j < 8 ==> byte_bit(x, j) == byte_bit(y, j),
    ensures
        x == y,
{
    assert(byte_bit(x, 0) == byte_bit(y, 0));
    assert(byte_bit(x, 1) == byte_bit(y, 1));
    assert(byte_bit(x, 2) == byte_bit(y, 2));
    assert(byte_bit(x, 3) == byte_bit(y, 3));
    assert(byte_bit(x, 4) == byte_bit(y, 4));
    assert(byte_bit(x, 5) == byte_bit(y, 5));
    assert(byte_bit(x, 6) == byte_bit(y, 6));
    assert(byte_bit(x, 7) == byte_bit(y, 7));
}

/// Two byte sequences with the same text are the same.
pub proof fn lemma_z32_injective(a: Seq<u8>, b: Seq<u8>)
    requires
        z32_text(a) == z32_text(b),
    ensures
        a == b,
{
    let (m, n) = (a.len() as int, b.len() as int);
    assert(z32_text(a).len() == (8 * m + 4) / 5);
    assert(z32_text(b).len() == (8 * n + 4) / 5);
    assert(m == n);
    assert forall|k: int| 0 <= k < 8 * a.len() implies bit(a, k) == bit(b, k) by {
        let i = k / 5;
        assert(0 <= i < (8 * m + 4) / 5);
        assert(z32_text(a)[i] == Z32_SYMBOLS@[quintet(a, 5 * i) as int]);
        assert(z32_text(b)[i] == Z32_SYMBOLS@[quintet(b, 5 * i) as int]);
        lemma_quintet(a, 5 * i);
        lemma_quintet(b, 5 * i);
        lemma_symbol_value(quintet(a, 5 * i) as int);
        lemma_symbol_value(quintet(b, 5 * i) as int);
        lemma_quintet_bits(a, b, 5 * i);
    }
    assert forall|i: int| 0 <= i < a.len() implies a[i] == b[i] by {
        assert forall|j: int| 0 <= j < 8 implies byte_bit(a[i], j) == byte_bit(b[i], j) by {
            assert(bit(a, 8 * i + j) == bit(b, 8 * i + j));
        }
        lemma_byte_bits(a[i], b[i]);
    }
    assert(a =~= b);
}

/// The text of thirty-two bytes has fifty-two symbols, and no symbol is a `#`.
pub proof fn lemma_z32_key_text(b: Seq<u8>)
    requires
        b.len() == 32,
    ensures
        z32_text(b).len() == 52,
        z32_text(b)[0] != '#',
{
    lemma_quintet(b, 0);
    lemma_symbol_value(quintet(b, 0) as int);
}

/// The text consists of digits and small letters.
pub proof fn lemma_z32_symbols(b: Seq<u8>, i: int)
    requires
        0 <= i < z32_text(b).len(),
    ensures
        '0' <= z32_text(b)[i] <= '9' || 'a' <= z32_text(b)[i] <= 'z',
{
    reveal_strlit("ybndrfg8ejkmcpqxot1uwisza345h769");
    lemma_quintet(b, 5 * i);
}

} // verus!
