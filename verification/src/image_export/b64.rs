//! Bytes as text in base 64.

use vstd::prelude::*;

verus! {

/// The digit for six bits.
pub open spec fn digit(v: int) -> char {
    if v < 26 {
        (65 + v) as char
    } else if v < 52 {
        (97 + (v - 26)) as char
    } else if v < 62 {
        (48 + (v - 52)) as char
    } else if v == 62 {
        '+'
    } else {
        '/'
    }
}

/// Bytes in base 64: four digits for three bytes, the last group padded.
pub open spec fn base64(bytes: Seq<u8>) -> Seq<char>
    decreases bytes.len(),
{
    if bytes.len() == 0 {
        Seq::empty()
    } else if bytes.len() == 1 {
        seq![digit((bytes[0] / 4) as int), digit(bytes[0] % 4 * 16), '=', '=']
    } else if bytes.len() == 2 {
        seq![
            digit((bytes[0] / 4) as int),
            digit(bytes[0] % 4 * 16 + bytes[1] / 16),
            digit(bytes[1] % 16 * 4),
            '=',
        ]
    } else {
        seq![
            digit((bytes[0] / 4) as int),
            digit(bytes[0] % 4 * 16 + bytes[1] / 16),
            digit(bytes[1] % 16 * 4 + bytes[2] / 64),
            digit((bytes[2] % 64) as int),
        ] + base64(bytes.skip(3))
    }
}

fn to_digit(v: u8) -> (r: char)
    requires
        v < 64,
    ensures
        r == digit(v as int),
{
    if v < 26 {
        (65 + v) as char
    } else if v < 52 {
        (97 + (v - 26)) as char
    } else if v < 62 {
        (48 + (v - 52)) as char
    } else if v == 62 {
        '+'
    } else {
        '/'
    }
}

/// Writes bytes in base 64.
pub fn encode(bytes: &[u8]) -> (r: String)
    ensures
        r@ == base64(bytes@),
{
    let n: usize = bytes.len();
    let mut out: String = String::new();
    let mut i: usize = 0;
    assert(bytes@.skip(0) =~= bytes@);
    while n - i >= 3
        invariant
            n == bytes@.len(),
            i <= n,
            out@ + base64(bytes@.skip(i as int)) =~= base64(bytes@),
        decreases n - i,
    {
        let (a, b, c): (u8, u8, u8) = (bytes[i], bytes[i + 1], bytes[i + 2]);
        assert(bytes@.skip(i as int).skip(3) =~= bytes@.skip(i + 3));
        out.push(to_digit(a / 4));
        out.push(to_digit(a % 4 * 16 + b / 16));
        out.push(to_digit(b % 16 * 4 + c / 64));
        out.push(to_digit(c % 64));
        i = i + 3;
    }
    if n - i == 2 {
        let (a, b): (u8, u8) = (bytes[i], bytes[i + 1]);
        out.push(to_digit(a / 4));
        out.push(to_digit(a % 4 * 16 + b / 16));
        out.push(to_digit(b % 16 * 4));
        out.push('=');
    } else if n - i == 1 {
        let a: u8 = bytes[i];
        out.push(to_digit(a / 4));
        out.push(to_digit(a % 4 * 16));
        out.push('=');
        out.push('=');
    }
    assert(out@ =~= base64(bytes@));
    out
}

/// The six bits of a digit.
pub open spec fn digit_value(c: char) -> int {
    if 'A' <= c && c <= 'Z' {
        c as int - 65
    } else if 'a' <= c && c <= 'z' {
        c as int - 97 + 26
    } else if '0' <= c && c <= '9' {
        c as int - 48 + 52
    } else if c == '+' {
        62
    } else {
        63
    }
}

/// The bytes that digits in groups of four stand for.
pub open spec fn unbase64(text: Seq<char>) -> Seq<u8>
    decreases text.len(),
{
    if text.len() < 4 {
        Seq::empty()
    } else {
        let first = digit_value(text[0]) * 4 + digit_value(text[1]) / 16;
        let second = digit_value(text[1]) % 16 * 16 + digit_value(text[2]) / 4;
        let third = digit_value(text[2]) % 4 * 64 + digit_value(text[3]);
        if text[2] == '=' {
            seq![first as u8]
        } else if text[3] == '=' {
            seq![first as u8, second as u8]
        } else {
            seq![first as u8, second as u8, third as u8] + unbase64(text.skip(4))
        }
    }
}

proof fn lemma_digit(v: int)
    requires
        0 <= v < 64,
    ensures
        digit_value(digit(v)) == v,
        digit(v) != '=',
{
}

/// What is written in base 64 reads back as the same bytes.
pub proof fn law_base64_reads_back(bytes: Seq<u8>)
    ensures
        unbase64(base64(bytes)) == bytes,
    decreases bytes.len(),
{
    let text = base64(bytes);
    if bytes.len() > 0 {
        let b: u8 = if bytes.len() > 1 { bytes[1] } else { 0 };
        let c: u8 = if bytes.len() > 2 { bytes[2] } else { 0 };
        lemma_digit((bytes[0] / 4) as int);
        lemma_digit(bytes[0] % 4 * 16 + b / 16);
        lemma_digit(b % 16 * 4 + c / 64);
        lemma_digit((c % 64) as int);
        if bytes.len() >= 3 {
            law_base64_reads_back(bytes.skip(3));
            assert(text.skip(4) =~= base64(bytes.skip(3)));
            assert(unbase64(text) == seq![bytes[0], bytes[1], bytes[2]] + bytes.skip(3));
        }
        assert(unbase64(text) =~= bytes);
    }
}

} // verus!
