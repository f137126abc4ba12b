//! How counter values are written: in decimal, in Roman numerals, or in letters.

use crate::gcpm::CounterStyle;
use crate::text::lower;
use vstd::prelude::*;

verus! {

/// The decimal digit for a value below ten.
pub open spec fn digit(d: int) -> char {
    (('0' as int + d) as u32) as char
}

/// A natural number in decimal, without leading zeros.
pub open spec fn digits(n: nat) -> Seq<char>
    decreases n,
{
    if n < 10 {
        seq![digit(n as int)]
    } else {
        digits(n / 10).push(digit((n % 10) as int))
    }
}

/// An integer in decimal, with a minus sign where it is negative.
pub open spec fn decimal(v: int) -> Seq<char> {
    if v < 0 {
        seq!['-'] + digits((-v) as nat)
    } else {
        digits(v as nat)
    }
}

/// One decimal digit in Roman numerals, given the symbols for one, five and ten of its
/// unit.
#[verifier::opaque]
pub open spec fn roman_digit(d: int, one: char, five: char, ten: char) -> Seq<char> {
    if d == 1 {
        seq![one]
    } else if d == 2 {
        seq![one, one]
    } else if d == 3 {
        seq![one, one, one]
    } else if d == 4 {
        seq![one, five]
    } else if d == 5 {
        seq![five]
    } else if d == 6 {
        seq![five, one]
    } else if d == 7 {
        seq![five, one, one]
    } else if d == 8 {
        seq![five, one, one, one]
    } else if d == 9 {
        seq![one, ten]
    } else {
        Seq::empty()
    }
}

/// A number below 4000 in Roman numerals.
pub open spec fn roman(n: int) -> Seq<char> {
    roman_digit(n / 1000, 'M', 'M', 'M') + roman_digit(n / 100 % 10, 'C', 'D', 'M') + roman_digit(
        n / 10 % 10,
        'X',
        'L',
        'C',
    ) + roman_digit(n % 10, 'I', 'V', 'X')
}

/// A positive number in letters: `a` to `z`, then `aa`, `ab` and so on, from the given
/// first letter.
pub open spec fn letters(n: nat, base: u8) -> Seq<char>
    decreases n,
{
    if n == 0 {
        Seq::empty()
    } else {
        letters(((n - 1) / 26) as nat, base).push(((base + (n - 1) % 26) as u8) as char)
    }
}

/// Whether there is a Roman numeral for a number.
pub open spec fn has_roman(v: int) -> bool {
    1 <= v <= 3999
}

/// A counter value in a given style. What a style cannot write is written in decimal.
pub open spec fn formatted(v: i32, style: CounterStyle) -> Seq<char> {
    match style {
        CounterStyle::Decimal => decimal(v as int),
        CounterStyle::UpperRoman => if has_roman(v as int) {
            roman(v as int)
        } else {
            decimal(v as int)
        },
        CounterStyle::LowerRoman => if has_roman(v as int) {
            lower(roman(v as int))
        } else {
            decimal(v as int)
        },
        CounterStyle::UpperAlpha => if v >= 1 {
            letters(v as nat, 'A' as u8)
        } else {
            decimal(v as int)
        },
        CounterStyle::LowerAlpha => if v >= 1 {
            letters(v as nat, 'a' as u8)
        } else {
            decimal(v as int)
        },
    }
}

/// Appends the characters of a list from the last to the first.
fn append_reversed(out: &mut String, chars: &Vec<char>)
    ensures
        final(out)@ == old(out)@ + chars@.reverse(),
{
    let ghost lead = out@;
    let mut i: usize = chars.len();
    assert(lead + chars@.reverse().take(0) =~= lead);
    while i > 0
        invariant
            i <= chars.len(),
            out@ == lead + chars@.reverse().take(chars.len() - i),
        decreases i,
    {
        i -= 1;
        out.push(chars[i]);
        assert(out@ =~= lead + chars@.reverse().take(chars.len() - i));
    }
    assert(chars@.reverse().take(chars.len() as int) =~= chars@.reverse());
}

/// A counter value in decimal.
pub fn to_decimal(value: i32) -> (r: String)
    ensures
        r@ == decimal(value as int),
{
    let mut out = String::new();
    let mut n: u32 = 0;
    if value < 0 {
        out.push('-');
        n = (-(value as i64)) as u32;
    } else {
        n = value as u32;
    }
    let ghost lead = out@;
    let ghost whole = digits(n as nat);
    let mut low: Vec<char> = Vec::new();
    assert(digits(n as nat) + low@.reverse() =~= whole);
    while n >= 10
        invariant
            digits(n as nat) + low@.reverse() == whole,
        decreases n,
    {
        let d = (48 + (n % 10)) as u8 as char;
        let ghost before = low@;
        low.push(d);
        proof {
            assert(d == digit((n % 10) as int));
            assert(digits((n / 10) as nat) + low@.reverse() =~= digits(n as nat) + before.reverse());
        }
        n = n / 10;
    }
    let d = (48 + n) as u8 as char;
    assert(digits(n as nat) =~= seq![d]);
    out.push(d);
    append_reversed(&mut out, &low);
    assert(out@ =~= lead + whole);
    assert(out@ =~= decimal(value as int));
    out
}

/// Appends one decimal digit in Roman numerals.
fn append_roman_digit(out: &mut String, d: u32, one: char, five: char, ten: char)
    requires
        d <= 9,
    ensures
        final(out)@ == old(out)@ + roman_digit(d as int, one, five, ten),
{
    reveal(roman_digit);
    let ghost lead = out@;
    if d == 9 {
        out.push(one);
        out.push(ten);
    } else if d == 4 {
        out.push(one);
        out.push(five);
    } else {
        let mut rest: u32 = d;
        if rest >= 5 {
            out.push(five);
            rest -= 5;
        }
        if rest >= 1 {
            out.push(one);
        }
        if rest >= 2 {
            out.push(one);
        }
        if rest >= 3 {
            out.push(one);
        }
    }
    assert(out@ =~= lead + roman_digit(d as int, one, five, ten));
}

/// A number from 1 to 3999 in upper-case Roman numerals.
pub fn to_roman(value: i32) -> (r: Option<String>)
    ensures
        match r {
            Some(s) => has_roman(value as int) && s@ == roman(value as int),
            None => !has_roman(value as int),
        },
{
    if value < 1 || value > 3999 {
        return None;
    }
    let n = value as u32;
    let mut out = String::new();
    append_roman_digit(&mut out, n / 1000, 'M', 'M', 'M');
    append_roman_digit(&mut out, n / 100 % 10, 'C', 'D', 'M');
    append_roman_digit(&mut out, n / 10 % 10, 'X', 'L', 'C');
    append_roman_digit(&mut out, n % 10, 'I', 'V', 'X');
    assert(out@ =~= roman(value as int));
    Some(out)
}

/// A positive number in letters from a given first letter.
pub fn to_alpha(value: i32, base: u8) -> (r: Option<String>)
    requires
        base <= 230,
    ensures
        match r {
            Some(s) => value >= 1 && s@ == letters(value as nat, base),
            None => value < 1,
        },
{
    if value < 1 {
        return None;
    }
    let mut n: u32 = value as u32;
    let mut chars: Vec<char> = Vec::new();
    let ghost whole = letters(n as nat, base);
    assert(letters(n as nat, base) + chars@.reverse() =~= whole);
    while n > 0
        invariant
            base <= 230,
            letters(n as nat, base) + chars@.reverse() == whole,
        decreases n,
    {
        let ghost before = chars@;
        let m = n - 1;
        let c = (base + (m % 26) as u8) as char;
        chars.push(c);
        proof {
            assert(letters((m / 26) as nat, base) + chars@.reverse() =~= letters(n as nat, base)
                + before.reverse());
        }
        n = m / 26;
    }
    let mut out = String::new();
    append_reversed(&mut out, &chars);
    assert(out@ =~= whole);
    Some(out)
}

/// A counter value in a given style.
pub fn format_counter(value: i32, style: CounterStyle) -> (r: String)
    ensures
        r@ == formatted(value, style),
{
    match style {
        CounterStyle::Decimal => to_decimal(value),
        CounterStyle::UpperRoman => match to_roman(value) {
            Some(s) => s,
            None => to_decimal(value),
        },
        CounterStyle::LowerRoman => match to_roman(value) {
            Some(s) => s.as_str().to_ascii_lowercase(),
            None => to_decimal(value),
        },
        CounterStyle::UpperAlpha => match to_alpha(value, 65) {
            Some(s) => s,
            None => to_decimal(value),
        },
        CounterStyle::LowerAlpha => match to_alpha(value, 97) {
            Some(s) => s,
            None => to_decimal(value),
        },
    }
}

/// The values of a list in a given style, with a separator between them.
pub open spec fn formatted_chain(values: Seq<i32>, separator: Seq<char>, style: CounterStyle) -> Seq<
    char,
>
    decreases values.len(),
{
    if values.len() == 0 {
        Seq::empty()
    } else if values.len() == 1 {
        formatted(values[0], style)
    } else {
        formatted_chain(values.drop_last(), separator, style) + separator + formatted(
            values.last(),
            style,
        )
    }
}

/// The values of a list in a given style, with a separator between them.
pub fn format_counter_chain(values: &[i32], separator: &str, style: CounterStyle) -> (r: String)
    ensures
        r@ == formatted_chain(values@, separator@, style),
{
    let mut out = String::new();
    let mut i: usize = 0;
    while i < values.len()
        invariant
            i <= values.len(),
            out@ == formatted_chain(values@.take(i as int), separator@, style),
        decreases values.len() - i,
    {
        let ghost next = values@.take(i + 1);
        assert(next.drop_last() =~= values@.take(i as int));
        if i > 0 {
            out.append(separator);
        }
        let ghost lead = out@;
        out.append(format_counter(values[i], style).as_str());
        assert(out@ =~= lead + formatted(values@[i as int], style));
        assert(out@ =~= formatted_chain(next, separator@, style));
        i += 1;
    }
    assert(values@.take(values.len() as int) =~= values@);
    out
}

/// The number that a run of decimal digits stands for.
pub open spec fn number_of(s: Seq<char>) -> int
    decreases s.len(),
{
    if s.len() == 0 {
        0
    } else {
        number_of(s.drop_last()) * 10 + (s.last() as int - '0' as int)
    }
}

/// The number that a text in decimal stands for.
pub open spec fn integer_of(s: Seq<char>) -> int {
    if s.len() > 0 && s[0] == '-' {
        -number_of(s.drop_first())
    } else {
        number_of(s)
    }
}

proof fn lemma_digits(n: nat)
    ensures
        digits(n).len() > 0,
        digits(n)[0] != '-',
        number_of(digits(n)) == n,
    decreases n,
{
    assert(forall|d: int| 0 <= d < 10 ==> #[trigger] digit(d) as int == '0' as int + d);
    if n < 10 {
        assert(digits(n).drop_last() =~= Seq::<char>::empty());
        assert(number_of(Seq::<char>::empty()) == 0);
    } else {
        lemma_digits(n / 10);
        assert(digits(n).drop_last() =~= digits(n / 10));
    }
}

/// A number read back from its decimal form is the number.
pub proof fn law_decimal_reads_back(v: int)
    ensures
        integer_of(decimal(v)) == v,
{
    if v < 0 {
        lemma_digits((-v) as nat);
        assert(decimal(v).drop_first() =~= digits((-v) as nat));
    } else {
        lemma_digits(v as nat);
    }
}

/// The number that a run of letters stands for.
pub open spec fn letters_value(s: Seq<char>, base: u8) -> int
    decreases s.len(),
{
    if s.len() == 0 {
        0
    } else {
        letters_value(s.drop_last(), base) * 26 + (s.last() as int - base as int) + 1
    }
}

/// A number read back from its letters is the number, so no two numbers have the same
/// letters.
pub proof fn law_letters_read_back(n: nat, base: u8)
    requires
        base <= 230,
    ensures
        letters_value(letters(n, base), base) == n,
    decreases n,
{
    if n > 0 {
        law_letters_read_back(((n - 1) / 26) as nat, base);
        assert(letters(n, base).drop_last() =~= letters(((n - 1) / 26) as nat, base));
    }
}

/// The value of a Roman symbol.
pub open spec fn roman_symbol(c: char) -> int {
    if c == 'I' {
        1
    } else if c == 'V' {
        5
    } else if c == 'X' {
        10
    } else if c == 'L' {
        50
    } else if c == 'C' {
        100
    } else if c == 'D' {
        500
    } else if c == 'M' {
        1000
    } else {
        0
    }
}

/// The value of a Roman numeral: a symbol before a greater one is taken away.
pub open spec fn roman_value(s: Seq<char>) -> int
    decreases s.len(),
{
    if s.len() == 0 {
        0
    } else if s.len() > 1 && roman_symbol(s[0]) < roman_symbol(s[1]) {
        roman_value(s.drop_first()) - roman_symbol(s[0])
    } else {
        roman_value(s.drop_first()) + roman_symbol(s[0])
    }
}

proof fn lemma_roman_concat(a: Seq<char>, b: Seq<char>)
    requires
        a.len() == 0 || b.len() == 0 || roman_symbol(a.last()) >= roman_symbol(b[0]),
    ensures
        roman_value(a + b) == roman_value(a) + roman_value(b),
    decreases a.len(),
{
    if a.len() == 0 {
        assert(a + b =~= b);
    } else {
        assert((a + b).drop_first() =~= a.drop_first() + b);
        lemma_roman_concat(a.drop_first(), b);
    }
}

/// One symbol counts for itself, and up to three of them for their sum.
proof fn lemma_roman_run(c: char)
    ensures
        roman_value(seq![c]) == roman_symbol(c),
        roman_value(seq![c, c]) == 2 * roman_symbol(c),
        roman_value(seq![c, c, c]) == 3 * roman_symbol(c),
{
    assert(seq![c].drop_first() =~= Seq::<char>::empty());
    assert(roman_value(Seq::<char>::empty()) == 0);
    assert(roman_value(seq![c]) == roman_symbol(c));
    assert(seq![c, c] =~= seq![c] + seq![c]);
    lemma_roman_concat(seq![c], seq![c]);
    assert(seq![c, c, c] =~= seq![c] + seq![c, c]);
    lemma_roman_concat(seq![c], seq![c, c]);
}

/// A symbol before a greater one is taken away from it.
proof fn lemma_roman_pair(a: char, b: char)
    requires
        roman_symbol(a) < roman_symbol(b),
    ensures
        roman_value(seq![a, b]) == roman_symbol(b) - roman_symbol(a),
{
    lemma_roman_run(b);
    assert(seq![a, b].drop_first() =~= seq![b]);
}

proof fn lemma_roman_digit(d: int, one: char, five: char, ten: char)
    requires
        0 <= d <= 9,
        0 < roman_symbol(one),
        roman_symbol(five) == 5 * roman_symbol(one),
        roman_symbol(ten) == 10 * roman_symbol(one),
    ensures
        roman_value(roman_digit(d, one, five, ten)) == d * roman_symbol(one),
        d == 0 <==> roman_digit(d, one, five, ten).len() == 0,
        d > 0 ==> roman_symbol(roman_digit(d, one, five, ten).last()) >= roman_symbol(one),
        d > 0 ==> roman_symbol(roman_digit(d, one, five, ten)[0]) <= roman_symbol(five),
{
    reveal(roman_digit);
    let u = roman_symbol(one);
    let value = roman_value(roman_digit(d, one, five, ten));
    lemma_roman_run(one);
    lemma_roman_run(five);
    lemma_roman_pair(one, five);
    lemma_roman_pair(one, ten);
    if d == 6 {
        assert(seq![five, one] =~= seq![five] + seq![one]);
        lemma_roman_concat(seq![five], seq![one]);
    } else if d == 7 {
        assert(seq![five, one, one] =~= seq![five] + seq![one, one]);
        lemma_roman_concat(seq![five], seq![one, one]);
    } else if d == 8 {
        assert(seq![five, one, one, one] =~= seq![five] + seq![one, one, one]);
        lemma_roman_concat(seq![five], seq![one, one, one]);
    }
    assert(d == 0 ==> value == 0);
    assert(d == 1 ==> value == u);
    assert(d == 2 ==> value == 2 * u);
    assert(d == 3 ==> value == 3 * u);
    assert(d == 4 ==> value == 4 * u);
    assert(d == 5 ==> value == 5 * u);
    assert(d == 6 ==> value == 6 * u);
    assert(d == 7 ==> value == 7 * u);
    assert(d == 8 ==> value == 8 * u);
    assert(d == 9 ==> value == 9 * u);
    assert(value == d * u) by (nonlinear_arith)
        requires
            0 <= d <= 9,
            d == 0 ==> value == 0,
            d == 1 ==> value == u,
            d == 2 ==> value == 2 * u,
            d == 3 ==> value == 3 * u,
            d == 4 ==> value == 4 * u,
            d == 5 ==> value == 5 * u,
            d == 6 ==> value == 6 * u,
            d == 7 ==> value == 7 * u,
            d == 8 ==> value == 8 * u,
            d == 9 ==> value == 9 * u,
    ;
}

proof fn lemma_roman_thousands(d: int)
    requires
        0 <= d <= 3,
    ensures
        roman_value(roman_digit(d, 'M', 'M', 'M')) == 1000 * d,
        roman_digit(d, 'M', 'M', 'M').len() > 0 ==> roman_digit(d, 'M', 'M', 'M').last() == 'M',
{
    reveal(roman_digit);
    lemma_roman_run('M');
}

proof fn lemma_roman_sum(m: Seq<char>, c: Seq<char>, x: Seq<char>, i: Seq<char>)
    requires
        m.len() > 0 ==> roman_symbol(m.last()) >= 1000,
        c.len() > 0 ==> 100 <= roman_symbol(c.last()) && roman_symbol(c[0]) <= 500,
        x.len() > 0 ==> 10 <= roman_symbol(x.last()) && roman_symbol(x[0]) <= 50,
        i.len() > 0 ==> roman_symbol(i[0]) <= 5,
    ensures
        roman_value(m + c + x + i) == roman_value(m) + roman_value(c) + roman_value(x)
            + roman_value(i),
{
    let mc = m + c;
    let mcx = mc + x;
    assert(mc.len() > 0 ==> roman_symbol(mc.last()) >= 100) by {
        if c.len() > 0 {
            assert(mc.last() == c.last());
        } else {
            assert(mc =~= m);
        }
    }
    assert(mcx.len() > 0 ==> roman_symbol(mcx.last()) >= 10) by {
        if x.len() > 0 {
            assert(mcx.last() == x.last());
        } else {
            assert(mcx =~= mc);
        }
    }
    lemma_roman_concat(m, c);
    lemma_roman_concat(mc, x);
    lemma_roman_concat(mcx, i);
}

proof fn lemma_decimal_places(n: int)
    requires
        has_roman(n),
    ensures
        0 <= n / 1000 <= 3,
        n == 1000 * (n / 1000) + 100 * (n / 100 % 10) + 10 * (n / 10 % 10) + n % 10,
{
    let tens = n / 10;
    let hundreds = tens / 10;
    let thousands = hundreds / 10;
    assert(hundreds == n / 100) by {
        vstd::arithmetic::div_mod::lemma_div_denominator(n, 10, 10);
    }
    assert(thousands == n / 1000) by {
        vstd::arithmetic::div_mod::lemma_div_denominator(n, 100, 10);
    }
    assert(n == 10 * tens + n % 10);
    assert(tens == 10 * hundreds + tens % 10);
    assert(hundreds == 10 * thousands + hundreds % 10);
}

/// A number from 1 to 3999 read back from its Roman numeral is the number.
pub proof fn law_roman_reads_back(n: int)
    requires
        has_roman(n),
    ensures
        roman_value(roman(n)) == n,
{
    lemma_decimal_places(n);
    lemma_roman_thousands(n / 1000);
    lemma_roman_digit(n / 100 % 10, 'C', 'D', 'M');
    lemma_roman_digit(n / 10 % 10, 'X', 'L', 'C');
    lemma_roman_digit(n % 10, 'I', 'V', 'X');
    lemma_roman_sum(
        roman_digit(n / 1000, 'M', 'M', 'M'),
        roman_digit(n / 100 % 10, 'C', 'D', 'M'),
        roman_digit(n / 10 % 10, 'X', 'L', 'C'),
        roman_digit(n % 10, 'I', 'V', 'X'),
    );
}

/// A character that a counter value can be written with: a minus sign, a digit or an
/// ASCII letter.
pub open spec fn plain_char(c: char) -> bool {
    c == '-' || ('0' <= c && c <= '9') || ('A' <= c && c <= 'Z') || ('a' <= c && c <= 'z')
}

proof fn lemma_digits_are_plain(n: nat)
    ensures
        forall|i: int| 0 <= i < digits(n).len() ==> plain_char(#[trigger] digits(n)[i]),
    decreases n,
{
    assert(forall|d: int| 0 <= d < 10 ==> plain_char(#[trigger] digit(d)));
    if n >= 10 {
        lemma_digits_are_plain(n / 10);
        assert forall|i: int| 0 <= i < digits(n).len() implies plain_char(#[trigger] digits(n)[i]) by {
            if i < digits(n / 10).len() {
                assert(digits(n)[i] == digits(n / 10)[i]);
            }
        }
    }
}

proof fn lemma_letters_are_plain(n: nat, base: u8)
    requires
        base == 'A' as u8 || base == 'a' as u8,
    ensures
        forall|i: int| 0 <= i < letters(n, base).len() ==> plain_char(#[trigger] letters(n, base)[i]),
    decreases n,
{
    if n > 0 {
        let m = ((n - 1) / 26) as nat;
        lemma_letters_are_plain(m, base);
        assert forall|i: int| 0 <= i < letters(n, base).len() implies plain_char(
            #[trigger] letters(n, base)[i],
        ) by {
            if i < letters(m, base).len() {
                assert(letters(n, base)[i] == letters(m, base)[i]);
            }
        }
    }
}

proof fn lemma_roman_digit_is_plain(d: int, one: char, five: char, ten: char)
    requires
        'A' <= one && one <= 'Z',
        'A' <= five && five <= 'Z',
        'A' <= ten && ten <= 'Z',
    ensures
        forall|i: int|
            0 <= i < roman_digit(d, one, five, ten).len() ==> 'A' <= (#[trigger] roman_digit(
                d,
                one,
                five,
                ten,
            )[i]) && roman_digit(d, one, five, ten)[i] <= 'Z',
{
    reveal(roman_digit);
}

/// A counter value is written with a minus sign, digits and ASCII letters only.
pub proof fn lemma_formatted_is_plain(v: i32, style: CounterStyle)
    ensures
        forall|i: int|
            0 <= i < formatted(v, style).len() ==> plain_char(#[trigger] formatted(v, style)[i]),
{
    if v < 0 {
        lemma_digits_are_plain((-v) as nat);
    } else {
        lemma_digits_are_plain(v as nat);
        lemma_letters_are_plain(v as nat, 'A' as u8);
        lemma_letters_are_plain(v as nat, 'a' as u8);
    }
    let n = v as int;
    lemma_roman_digit_is_plain(n / 1000, 'M', 'M', 'M');
    lemma_roman_digit_is_plain(n / 100 % 10, 'C', 'D', 'M');
    lemma_roman_digit_is_plain(n / 10 % 10, 'X', 'L', 'C');
    lemma_roman_digit_is_plain(n % 10, 'I', 'V', 'X');
}

/// A counter value read back in its style is the value. Roman numerals go from 1 to 3999
/// and letters from 1 on; everything else is in decimal. The two cases of a style differ
/// in the case of the letters only.
pub proof fn law_styles_read_back(v: i32)
    ensures
        integer_of(formatted(v, CounterStyle::Decimal)) == v,
        1 <= v <= 3999 ==> roman_value(formatted(v, CounterStyle::UpperRoman)) == v,
        1 <= v <= 3999 ==> formatted(v, CounterStyle::LowerRoman) == lower(formatted(v, CounterStyle::UpperRoman)),
        v < 1 || v > 3999 ==> integer_of(formatted(v, CounterStyle::UpperRoman)) == v,
        v < 1 || v > 3999 ==> integer_of(formatted(v, CounterStyle::LowerRoman)) == v,
        1 <= v ==> letters_value(formatted(v, CounterStyle::UpperAlpha), 65) == v,
        1 <= v ==> letters_value(formatted(v, CounterStyle::LowerAlpha), 97) == v,
        v < 1 ==> integer_of(formatted(v, CounterStyle::UpperAlpha)) == v,
        v < 1 ==> integer_of(formatted(v, CounterStyle::LowerAlpha)) == v,
{
    law_decimal_reads_back(v as int);
    if 1 <= v {
        law_letters_read_back(v as nat, 65);
        law_letters_read_back(v as nat, 97);
    }
    if 1 <= v <= 3999 {
        law_roman_reads_back(v as int);
    }
}

/// Letters run from the first of the alphabet to the last.
pub proof fn law_letters_are_of_the_alphabet(v: i32)
    requires
        1 <= v,
    ensures
        forall|i: int|
            0 <= i < formatted(v, CounterStyle::UpperAlpha).len() ==> 'A' <= (#[trigger] formatted(
                v,
                CounterStyle::UpperAlpha,
            )[i]) && formatted(v, CounterStyle::UpperAlpha)[i] <= 'Z',
        forall|i: int|
            0 <= i < formatted(v, CounterStyle::LowerAlpha).len() ==> 'a' <= (#[trigger] formatted(
                v,
                CounterStyle::LowerAlpha,
            )[i]) && formatted(v, CounterStyle::LowerAlpha)[i] <= 'z',
{
    lemma_letters_in_range(v as nat, 65);
    lemma_letters_in_range(v as nat, 97);
}

proof fn lemma_letters_in_range(n: nat, base: u8)
    requires
        base <= 200,
    ensures
        forall|i: int|
            0 <= i < letters(n, base).len() ==> base <= (#[trigger] letters(n, base)[i]) as int && letters(
                n,
                base,
            )[i] as int <= base + 25,
    decreases n,
{
    if n > 0 {
        let m = ((n - 1) / 26) as nat;
        lemma_letters_in_range(m, base);
        assert forall|i: int| 0 <= i < letters(n, base).len() implies base <= (#[trigger] letters(
            n,
            base,
        )[i]) as int && letters(n, base)[i] as int <= base + 25 by {
            if i < letters(m, base).len() {
                assert(letters(n, base)[i] == letters(m, base)[i]);
            }
        }
    }
}

/// Values in a row are written each in its style, with the separator between any two and
/// nowhere else.
pub proof fn law_chains_are_joined(a: Seq<i32>, b: Seq<i32>, v: i32, separator: Seq<char>, style: CounterStyle)
    ensures
        formatted_chain(Seq::empty(), separator, style).len() == 0,
        formatted_chain(seq![v], separator, style) == formatted(v, style),
        a.len() > 0 && b.len() > 0 ==> formatted_chain(a + b, separator, style) == formatted_chain(
            a,
            separator,
            style,
        ) + separator + formatted_chain(b, separator, style),
    decreases b.len(),
{
    if a.len() > 0 && b.len() > 0 {
        assert((a + b).drop_last() =~= a + b.drop_last());
        if b.len() == 1 {
            assert(a + b.drop_last() =~= a);
        } else {
            law_chains_are_joined(a, b.drop_last(), v, separator, style);
            assert(formatted_chain(a + b, separator, style) =~= formatted_chain(a, separator, style) + separator
                + formatted_chain(b, separator, style));
        }
    }
}

/// How many symbols a decimal digit takes: one for five and one for each one, and two for
/// four and for nine.
pub open spec fn symbols_for(d: int) -> int {
    if d == 4 || d == 9 {
        2
    } else {
        d / 5 + d % 5
    }
}

/// A Roman numeral has the symbols for its decimal digits and no others.
pub proof fn law_roman_numerals_are_short(n: int)
    requires
        has_roman(n),
    ensures
        roman(n).len() == symbols_for(n / 1000) + symbols_for(n / 100 % 10) + symbols_for(n / 10 % 10) + symbols_for(
            n % 10,
        ),
{
    reveal(roman_digit);
    assert(0 <= n / 1000 <= 3);
    lemma_symbols(n / 1000, 'M', 'M', 'M');
    lemma_symbols(n / 100 % 10, 'C', 'D', 'M');
    lemma_symbols(n / 10 % 10, 'X', 'L', 'C');
    lemma_symbols(n % 10, 'I', 'V', 'X');
}

proof fn lemma_symbols(d: int, one: char, five: char, ten: char)
    requires
        0 <= d <= 9,
    ensures
        roman_digit(d, one, five, ten).len() == symbols_for(d),
{
    reveal(roman_digit);
}

} // verus!
