//! Lowercase hexadecimal rendering of bytes and codepoints.
//!
//! Every byte is shown as two hex digits followed by one separator space, so
//! a sequence of `n` bytes occupies exactly `3 * n` display columns.

use vstd::prelude::*;

verus! {

/// The lowercase hexadecimal digit for a value below sixteen.
pub open spec fn hex_digit(d: nat) -> char {
    if d == 0 {
        '0'
    } else if d == 1 {
        '1'
    } else if d == 2 {
        '2'
    } else if d == 3 {
        '3'
    } else if d == 4 {
        '4'
    } else if d == 5 {
        '5'
    } else if d == 6 {
        '6'
    } else if d == 7 {
        '7'
    } else if d == 8 {
        '8'
    } else if d == 9 {
        '9'
    } else if d == 10 {
        'a'
    } else if d == 11 {
        'b'
    } else if d == 12 {
        'c'
    } else if d == 13 {
        'd'
    } else if d == 14 {
        'e'
    } else {
        'f'
    }
}

/// The value a hexadecimal digit stands for; zero for any other character.
pub open spec fn hex_value(c: char) -> nat {
    if c == '0' {
        0
    } else if c == '1' {
        1
    } else if c == '2' {
        2
    } else if c == '3' {
        3
    } else if c == '4' {
        4
    } else if c == '5' {
        5
    } else if c == '6' {
        6
    } else if c == '7' {
        7
    } else if c == '8' {
        8
    } else if c == '9' {
        9
    } else if c == 'a' {
        10
    } else if c == 'b' {
        11
    } else if c == 'c' {
        12
    } else if c == 'd' {
        13
    } else if c == 'e' {
        14
    } else if c == 'f' {
        15
    } else {
        0
    }
}

/// One byte rendered as two hex digits and a separator space.
pub open spec fn byte_hex(b: u8) -> Seq<char> {
    seq![hex_digit((b / 16) as nat), hex_digit((b % 16) as nat), ' ']
}

/// A byte sequence rendered as hex, three columns per byte.
pub open spec fn bytes_hex(bs: Seq<u8>) -> Seq<char>
    decreases bs.len(),
{
    if bs.len() == 0 {
        Seq::empty()
    } else {
        byte_hex(bs[0]) + bytes_hex(bs.skip(1))
    }
}

/// The hex digits of a codepoint value, most significant first, at least two
/// digits (a single-digit value gets one leading zero).
pub open spec fn hex_digits(n: nat) -> Seq<char>
    decreases n,
{
    if n < 16 {
        seq![hex_digit(n)]
    } else {
        hex_digits(n / 16) + seq![hex_digit(n % 16)]
    }
}

/// A codepoint value rendered as lowercase hex, zero-padded to two digits.
pub open spec fn codepoint_hex(n: nat) -> Seq<char> {
    if n < 16 {
        seq!['0'] + hex_digits(n)
    } else {
        hex_digits(n)
    }
}

/// Reading a hex rendering back: each leading triple of two digits and a
/// separator gives one byte; a trailing fragment shorter than a triple is
/// ignored.
pub open spec fn unhex_text(s: Seq<char>) -> Seq<u8>
    decreases s.len(),
{
    if s.len() < 3 {
        Seq::empty()
    } else {
        seq![(hex_value(s[0]) * 16 + hex_value(s[1])) as u8] + unhex_text(s.skip(3))
    }
}

pub proof fn lemma_bytes_hex_len(bs: Seq<u8>)
    ensures
        bytes_hex(bs).len() == 3 * bs.len(),
    decreases bs.len(),
{
    if bs.len() > 0 {
        lemma_bytes_hex_len(bs.skip(1));
    }
}

/// Rendering distributes over concatenation of byte sequences.
pub proof fn lemma_bytes_hex_concat(a: Seq<u8>, b: Seq<u8>)
    ensures
        bytes_hex(a + b) == bytes_hex(a) + bytes_hex(b),
    decreases a.len(),
{
    if a.len() == 0 {
        assert(a + b =~= b);
        assert(bytes_hex(a) + bytes_hex(b) =~= bytes_hex(b));
    } else {
        lemma_bytes_hex_concat(a.skip(1), b);
        assert((a + b).skip(1) =~= a.skip(1) + b);
        assert(byte_hex((a + b)[0]) + (bytes_hex(a.skip(1)) + bytes_hex(b)) =~= (byte_hex(a[0])
            + bytes_hex(a.skip(1))) + bytes_hex(b));
    }
}

pub proof fn lemma_bytes_hex_push(bs: Seq<u8>, b: u8)
    ensures
        bytes_hex(bs.push(b)) == bytes_hex(bs) + byte_hex(b),
{
    assert(bs.push(b) =~= bs + seq![b]);
    lemma_bytes_hex_concat(bs, seq![b]);
    assert(seq![b].skip(1) =~= Seq::<u8>::empty());
    assert(bytes_hex(Seq::<u8>::empty()) =~= Seq::<char>::empty());
    assert(bytes_hex(seq![b]) =~= byte_hex(b) + bytes_hex(seq![b].skip(1)));
    assert(bytes_hex(seq![b]) =~= byte_hex(b));
}

/// Law: rendering bytes as lowercase hex and then reading the digit pairs
/// back, separator spaces stripped, yields exactly the original bytes — the
/// hex row loses no information.
pub proof fn lemma_bytes_hex_round_trip(bs: Seq<u8>)
    ensures
        unhex_text(bytes_hex(bs)) == bs,
    decreases bs.len(),
{
    if bs.len() == 0 {
        assert(unhex_text(bytes_hex(bs)) =~= bs);
    } else {
        lemma_bytes_hex_round_trip(bs.skip(1));
        let s = bytes_hex(bs);
        lemma_bytes_hex_len(bs);
        assert(s.len() >= 3);
        assert(s[0] == hex_digit((bs[0] / 16) as nat));
        assert(s[1] == hex_digit((bs[0] % 16) as nat));
        assert(hex_value(hex_digit((bs[0] / 16) as nat)) == bs[0] / 16);
        assert(hex_value(hex_digit((bs[0] % 16) as nat)) == bs[0] % 16);
        assert((hex_value(s[0]) * 16 + hex_value(s[1])) as u8 == bs[0]);
        assert(s.skip(3) =~= bytes_hex(bs.skip(1)));
        assert(unhex_text(s) =~= bs);
    }
}

/// Sixteen to the power `k`: the number of values `k` hex digits can show.
pub open spec fn exp16(k: nat) -> nat
    decreases k,
{
    if k == 0 {
        1
    } else {
        16 * exp16((k - 1) as nat)
    }
}

pub proof fn lemma_hex_digits_len_bound(n: nat, k: nat)
    requires
        1 <= k,
        n < exp16(k),
    ensures
        hex_digits(n).len() <= k,
    decreases k,
{
    if n < 16 {
    } else {
        assert(exp16(1) == 16 * exp16(0));
        assert(k >= 2) by {
            if k == 1 {
                assert(exp16(1) == 16);
            }
        }
        assert(n / 16 < exp16((k - 1) as nat)) by (nonlinear_arith)
            requires
                n < exp16(k),
                exp16(k) == 16 * exp16((k - 1) as nat),
                n >= 16,
        {}
        lemma_hex_digits_len_bound(n / 16, (k - 1) as nat);
    }
}

/// A codepoint value below sixteen to the `k` is rendered in at most `k` hex
/// digits (and never fewer than two).
pub proof fn lemma_codepoint_hex_len_bound(n: nat, k: nat)
    requires
        2 <= k,
        n < exp16(k),
    ensures
        2 <= codepoint_hex(n).len() <= k,
{
    lemma_hex_digits_len_bound(n, k);
    if n < 16 {
    } else {
        assert(hex_digits(n) == hex_digits(n / 16) + seq![hex_digit(n % 16)]);
        assert(hex_digits(n).len() >= 2);
    }
}

/// The exec counterpart of [`hex_digit`].
pub fn hex_digit_char(d: u8) -> (c: char)
    requires
        d < 16,
    ensures
        c == hex_digit(d as nat),
{
    match d {
        0 => '0',
        1 => '1',
        2 => '2',
        3 => '3',
        4 => '4',
        5 => '5',
        6 => '6',
        7 => '7',
        8 => '8',
        9 => '9',
        10 => 'a',
        11 => 'b',
        12 => 'c',
        13 => 'd',
        14 => 'e',
        _ => 'f',
    }
}

/// Appends the two hex digits and the separator space of one byte.
pub fn push_byte_hex(out: &mut Vec<char>, b: u8)
    ensures
        final(out)@ == old(out)@ + byte_hex(b),
{
    out.push(hex_digit_char(b / 16));
    out.push(hex_digit_char(b % 16));
    out.push(' ');
    assert(final(out)@ =~= old(out)@ + byte_hex(b));
}

/// The exec counterpart of [`hex_digits`].
pub fn hex_digits_chars(n: u32) -> (r: Vec<char>)
    ensures
        r@ == hex_digits(n as nat),
    decreases n,
{
    if n < 16 {
        let mut v: Vec<char> = Vec::new();
        v.push(hex_digit_char(n as u8));
        assert(v@ =~= hex_digits(n as nat));
        v
    } else {
        let mut v = hex_digits_chars(n / 16);
        v.push(hex_digit_char((n % 16) as u8));
        assert(v@ =~= hex_digits(n as nat));
        v
    }
}

/// The exec counterpart of [`codepoint_hex`].
pub fn codepoint_hex_chars(n: u32) -> (r: Vec<char>)
    ensures
        r@ == codepoint_hex(n as nat),
{
    if n < 16 {
        let mut v: Vec<char> = Vec::new();
        v.push('0');
        v.push(hex_digit_char(n as u8));
        assert(v@ =~= codepoint_hex(n as nat));
        v
    } else {
        hex_digits_chars(n)
    }
}

} // verus!
