//! Escaping text for HTML and for CSS strings.

use vstd::prelude::*;

verus! {

/// A character of HTML text: the three that would be read as markup are written as
/// references.
pub open spec fn text_char(c: char) -> Seq<char> {
    if c == '&' {
        seq!['&', 'a', 'm', 'p', ';']
    } else if c == '<' {
        seq!['&', 'l', 't', ';']
    } else if c == '>' {
        seq!['&', 'g', 't', ';']
    } else {
        seq![c]
    }
}

/// A character of an HTML attribute value in double quotes.
pub open spec fn attribute_char(c: char) -> Seq<char> {
    if c == '"' {
        seq!['&', 'q', 'u', 'o', 't', ';']
    } else {
        text_char(c)
    }
}

/// A text as HTML text.
pub open spec fn escaped_text(s: Seq<char>) -> Seq<char>
    decreases s.len(),
{
    if s.len() == 0 {
        Seq::empty()
    } else {
        escaped_text(s.drop_last()) + text_char(s.last())
    }
}

/// A text as an HTML attribute value.
pub open spec fn escaped_attribute(s: Seq<char>) -> Seq<char>
    decreases s.len(),
{
    if s.len() == 0 {
        Seq::empty()
    } else {
        escaped_attribute(s.drop_last()) + attribute_char(s.last())
    }
}

proof fn reveal_references()
    ensures
        "&amp;"@ == seq!['&', 'a', 'm', 'p', ';'],
        "&lt;"@ == seq!['&', 'l', 't', ';'],
        "&gt;"@ == seq!['&', 'g', 't', ';'],
        "&quot;"@ == seq!['&', 'q', 'u', 'o', 't', ';'],
{
    reveal_strlit("&amp;");
    reveal_strlit("&lt;");
    reveal_strlit("&gt;");
    reveal_strlit("&quot;");
    assert("&amp;"@ =~= seq!['&', 'a', 'm', 'p', ';']);
    assert("&lt;"@ =~= seq!['&', 'l', 't', ';']);
    assert("&gt;"@ =~= seq!['&', 'g', 't', ';']);
    assert("&quot;"@ =~= seq!['&', 'q', 'u', 'o', 't', ';']);
}

/// Appends one character as HTML text.
fn push_text_char(out: &mut String, c: char)
    ensures
        final(out)@ == old(out)@ + text_char(c),
{
    proof {
        reveal_references();
    }
    if c == '&' {
        out.append("&amp;");
    } else if c == '<' {
        out.append("&lt;");
    } else if c == '>' {
        out.append("&gt;");
    } else {
        out.push(c);
        assert(out@ =~= old(out)@ + seq![c]);
    }
}

/// Appends a text as HTML text.
pub fn push_escaped_html_text(out: &mut String, text: &str)
    ensures
        final(out)@ == old(out)@ + escaped_text(text@),
{
    let ghost lead = out@;
    assert(lead + escaped_text(text@.take(0)) =~= lead);
    for c in it: text.chars()
        invariant
            it.seq() == text@,
            out@ == lead + escaped_text(text@.take(it.index() as int)),
    {
        let ghost i = it.index() as int;
        assert(text@.take(i + 1).drop_last() =~= text@.take(i));
        push_text_char(out, c);
        assert(out@ =~= lead + escaped_text(text@.take(i + 1)));
    }
    assert(text@.take(text@.len() as int) =~= text@);
}

/// Appends a text as HTML text.
pub fn escape_text_content(value: &str, writer: &mut String)
    ensures
        final(writer)@ == old(writer)@ + escaped_text(value@),
{
    push_escaped_html_text(writer, value);
}

/// Appends a text as an HTML attribute value.
pub fn escape_attribute_value(value: &str, writer: &mut String)
    ensures
        final(writer)@ == old(writer)@ + escaped_attribute(value@),
{
    let ghost lead = writer@;
    assert(lead + escaped_attribute(value@.take(0)) =~= lead);
    for c in it: value.chars()
        invariant
            it.seq() == value@,
            writer@ == lead + escaped_attribute(value@.take(it.index() as int)),
    {
        let ghost i = it.index() as int;
        assert(value@.take(i + 1).drop_last() =~= value@.take(i));
        if c == '"' {
            proof {
                reveal_references();
            }
            writer.append("&quot;");
        } else {
            push_text_char(writer, c);
        }
        assert(writer@ =~= lead + escaped_attribute(value@.take(i + 1)));
    }
    assert(value@.take(value@.len() as int) =~= value@);
}

/// The control characters: the Unicode general category `Cc`.
pub open spec fn control(c: char) -> bool {
    c as u32 <= 0x1f || 0x7f <= c as u32 <= 0x9f
}

/// A hexadecimal digit in lower case.
pub open spec fn hex_digit(d: int) -> char {
    if d < 10 {
        (('0' as int + d) as u32) as char
    } else {
        (('a' as int + (d - 10)) as u32) as char
    }
}

/// A number below 256 in hexadecimal.
pub open spec fn hex(n: int) -> Seq<char> {
    if n < 16 {
        seq![hex_digit(n)]
    } else {
        seq![hex_digit(n / 16), hex_digit(n % 16)]
    }
}

/// A character of a CSS string in double quotes. Control characters are written as
/// numbers, with a space that belongs to them.
pub open spec fn css_char(c: char) -> Seq<char> {
    if c == '"' || c == '\\' {
        seq!['\\', c]
    } else if control(c) {
        seq!['\\'] + hex(c as int) + seq![' ']
    } else {
        seq![c]
    }
}

/// A text as the body of a CSS string in double quotes.
pub open spec fn css_escaped(s: Seq<char>) -> Seq<char>
    decreases s.len(),
{
    if s.len() == 0 {
        Seq::empty()
    } else {
        css_escaped(s.drop_last()) + css_char(s.last())
    }
}

/// A hexadecimal digit.
fn to_hex_digit(d: u32) -> (c: char)
    requires
        d < 16,
    ensures
        c == hex_digit(d as int),
{
    if d < 10 {
        (48 + d) as u8 as char
    } else {
        (87 + d) as u8 as char
    }
}

/// Appends one character of a CSS string.
fn push_css_char(out: &mut String, c: char)
    ensures
        final(out)@ == old(out)@ + css_char(c),
{
    let ghost lead = out@;
    let code = c as u32;
    if c == '"' || c == '\\' {
        out.push('\\');
        out.push(c);
    } else if code <= 0x1f || (0x7f <= code && code <= 0x9f) {
        out.push('\\');
        if code >= 16 {
            out.push(to_hex_digit(code / 16));
        }
        out.push(to_hex_digit(code % 16));
        out.push(' ');
    } else {
        out.push(c);
    }
    assert(out@ =~= lead + css_char(c));
}

/// A text as the body of a CSS string in double quotes, which the caller supplies.
pub fn css_escape_string(s: &str) -> (r: String)
    ensures
        r@ == css_escaped(s@),
{
    let mut out = String::new();
    assert(css_escaped(s@.take(0)) =~= Seq::<char>::empty());
    for c in it: s.chars()
        invariant
            it.seq() == s@,
            out@ == css_escaped(s@.take(it.index() as int)),
    {
        let ghost i = it.index() as int;
        assert(s@.take(i + 1).drop_last() =~= s@.take(i));
        push_css_char(&mut out, c);
        assert(out@ =~= css_escaped(s@.take(i + 1)));
    }
    assert(s@.take(s@.len() as int) =~= s@);
    out
}

/// Escaping two texts one after the other is escaping them together.
pub proof fn law_escaping_is_piecewise(a: Seq<char>, b: Seq<char>)
    ensures
        escaped_text(a + b) == escaped_text(a) + escaped_text(b),
        escaped_attribute(a + b) == escaped_attribute(a) + escaped_attribute(b),
        css_escaped(a + b) == css_escaped(a) + css_escaped(b),
    decreases b.len(),
{
    if b.len() == 0 {
        assert(a + b =~= a);
        assert(escaped_text(a) + escaped_text(b) =~= escaped_text(a));
        assert(escaped_attribute(a) + escaped_attribute(b) =~= escaped_attribute(a));
        assert(css_escaped(a) + css_escaped(b) =~= css_escaped(a));
    } else {
        assert((a + b).drop_last() =~= a + b.drop_last());
        law_escaping_is_piecewise(a, b.drop_last());
        let c = b.last();
        assert(escaped_text(a + b) =~= escaped_text(a) + escaped_text(b));
        assert(escaped_attribute(a + b) =~= escaped_attribute(a) + escaped_attribute(b));
        assert(css_escaped(a + b) =~= css_escaped(a) + css_escaped(b));
    }
}

/// Escaped text has no character that starts or ends a tag, and an escaped attribute
/// value no quote either.
pub proof fn law_escaped_html_has_no_markup(s: Seq<char>)
    ensures
        !escaped_text(s).contains('<'),
        !escaped_text(s).contains('>'),
        !escaped_attribute(s).contains('<'),
        !escaped_attribute(s).contains('>'),
        !escaped_attribute(s).contains('"'),
    decreases s.len(),
{
    if s.len() > 0 {
        law_escaped_html_has_no_markup(s.drop_last());
        let a = escaped_text(s.drop_last());
        let b = escaped_attribute(s.drop_last());
        assert forall|c: char| c == '<' || c == '>' implies !escaped_text(s).contains(c) by {
            if escaped_text(s).contains(c) {
                let i = escaped_text(s).index_of(c);
                if i < a.len() {
                    assert(a[i] == c);
                } else {
                    assert(text_char(s.last())[i - a.len()] == c);
                }
            }
        }
        assert forall|c: char| c == '<' || c == '>' || c == '"' implies !escaped_attribute(
            s,
        ).contains(c) by {
            if escaped_attribute(s).contains(c) {
                let i = escaped_attribute(s).index_of(c);
                if i < b.len() {
                    assert(b[i] == c);
                } else {
                    assert(attribute_char(s.last())[i - b.len()] == c);
                }
            }
        }
    }
}

/// HTML text with the four references read.
pub open spec fn read_html(s: Seq<char>) -> Seq<char>
    decreases s.len(),
{
    if s.len() == 0 {
        Seq::empty()
    } else if s.len() >= 5 && s.take(5) == seq!['&', 'a', 'm', 'p', ';'] {
        seq!['&'] + read_html(s.skip(5))
    } else if s.len() >= 4 && s.take(4) == seq!['&', 'l', 't', ';'] {
        seq!['<'] + read_html(s.skip(4))
    } else if s.len() >= 4 && s.take(4) == seq!['&', 'g', 't', ';'] {
        seq!['>'] + read_html(s.skip(4))
    } else if s.len() >= 6 && s.take(6) == seq!['&', 'q', 'u', 'o', 't', ';'] {
        seq!['"'] + read_html(s.skip(6))
    } else {
        seq![s[0]] + read_html(s.drop_first())
    }
}

pub proof fn lemma_read_char(c: char, t: Seq<char>)
    ensures
        read_html(text_char(c) + t) == seq![c] + read_html(t),
        read_html(attribute_char(c) + t) == seq![c] + read_html(t),
{
    let a = text_char(c) + t;
    let b = attribute_char(c) + t;
    if c == '&' {
        assert(a.take(5) =~= seq!['&', 'a', 'm', 'p', ';']);
        assert(a.skip(5) =~= t);
    } else if c == '<' {
        assert(a[1] == 'l');
        assert(a.len() >= 5 ==> a.take(5)[1] == 'l');
        assert(a.take(4) =~= seq!['&', 'l', 't', ';']);
        assert(a.skip(4) =~= t);
    } else if c == '>' {
        assert(a[1] == 'g');
        assert(a.len() >= 5 ==> a.take(5)[1] == 'g');
        assert(a.take(4)[1] == 'g');
        assert(a.take(4) =~= seq!['&', 'g', 't', ';']);
        assert(a.skip(4) =~= t);
    } else {
        assert(a[0] == c);
        assert(a.len() >= 5 ==> a.take(5)[0] == c);
        assert(a.len() >= 4 ==> a.take(4)[0] == c);
        assert(a.len() >= 6 ==> a.take(6)[0] == c);
        assert(a.drop_first() =~= t);
    }
    if c == '"' {
        assert(b[1] == 'q');
        assert(b.take(5)[1] == 'q');
        assert(b.take(4)[1] == 'q');
        assert(b.take(6) =~= seq!['&', 'q', 'u', 'o', 't', ';']);
        assert(b.skip(6) =~= t);
    }
}

/// Escaped text read as HTML is the text, and so is an escaped attribute value.
pub proof fn law_escaped_html_reads_back(s: Seq<char>)
    ensures
        read_html(escaped_text(s)) == s,
        read_html(escaped_attribute(s)) == s,
    decreases s.len(),
{
    if s.len() > 0 {
        let c = s[0];
        let t = s.drop_first();
        law_escaped_html_reads_back(t);
        assert(s =~= seq![c] + t);
        law_escaping_is_piecewise(seq![c], t);
        reveal_with_fuel(escaped_text, 2);
        reveal_with_fuel(escaped_attribute, 2);
        assert(seq![c].drop_last() =~= Seq::<char>::empty());
        assert(escaped_text(seq![c]) =~= text_char(c));
        assert(escaped_attribute(seq![c]) =~= attribute_char(c));
        lemma_read_char(c, escaped_text(t));
        lemma_read_char(c, escaped_attribute(t));
    }
}

/// Whether a character is a hexadecimal digit.
pub open spec fn is_hex(c: char) -> bool {
    ('0' <= c && c <= '9') || ('a' <= c && c <= 'f') || ('A' <= c && c <= 'F')
}

/// The value of a hexadecimal digit.
pub open spec fn hex_digit_value(c: char) -> int {
    if c <= '9' {
        c as int - '0' as int
    } else if c <= 'F' {
        c as int - 'A' as int + 10
    } else {
        c as int - 'a' as int + 10
    }
}

/// How many hexadecimal digits a text starts with, counting up to `max`.
pub open spec fn hex_run(s: Seq<char>, max: nat) -> nat
    decreases max,
{
    if max > 0 && s.len() > 0 && is_hex(s[0]) {
        1 + hex_run(s.drop_first(), (max - 1) as nat)
    } else {
        0
    }
}

/// The value of a run of hexadecimal digits.
pub open spec fn hex_value(s: Seq<char>) -> int
    decreases s.len(),
{
    if s.len() == 0 {
        0
    } else {
        hex_value(s.drop_last()) * 16 + hex_digit_value(s.last())
    }
}

/// The character that an escaped number stands for: the replacement character for
/// zero and for what is no character.
pub open spec fn escaped_code(n: int) -> char {
    if n == 0 || 0xd800 <= n <= 0xdfff || n > 0x10ffff {
        '\u{fffd}'
    } else {
        (n as u32) as char
    }
}

/// What a CSS string in double quotes, after its opening quote, stands for, and the
/// text after its closing quote. `None` where it is not closed before a line break or
/// the end.
pub open spec fn read_css_string(s: Seq<char>) -> Option<(Seq<char>, Seq<char>)>
    decreases s.len(),
{
    if s.len() == 0 || s[0] == '\n' || s[0] == '\r' || s[0] == '\u{c}' {
        None
    } else if s[0] == '"' {
        Some((Seq::empty(), s.drop_first()))
    } else if s[0] == '\\' {
        if s.len() < 2 {
            None
        } else if is_hex(s[1]) {
            let k = hex_run(s.drop_first(), 6);
            let from = 1 + k;
            let c = escaped_code(hex_value(s.subrange(1, from as int)));
            let after = if from < s.len() && (s[from as int] == ' ' || s[from as int] == '\t'
                || s[from as int] == '\n') {
                from + 1
            } else {
                from
            };
            if after > s.len() {
                None
            } else {
                match read_css_string(s.skip(after as int)) {
                    Some((v, rest)) => Some((seq![c] + v, rest)),
                    None => None,
                }
            }
        } else {
            match read_css_string(s.skip(2)) {
                Some((v, rest)) => Some((seq![s[1]] + v, rest)),
                None => None,
            }
        }
    } else {
        match read_css_string(s.drop_first()) {
            Some((v, rest)) => Some((seq![s[0]] + v, rest)),
            None => None,
        }
    }
}

/// A text with the replacement character for each null character.
pub open spec fn without_null(s: Seq<char>) -> Seq<char> {
    s.map_values(
        |c: char|
            if c == '\0' {
                '\u{fffd}'
            } else {
                c
            },
    )
}

proof fn lemma_read_css_char(c: char, t: Seq<char>)
    ensures
        read_css_string(css_char(c) + t) == (match read_css_string(t) {
            Some((v, rest)) => Some((without_null(seq![c]) + v, rest)),
            None => None,
        }),
{
    let s = css_char(c) + t;
    assert(without_null(seq![c]) =~= seq![
        if c == '\0' {
            '\u{fffd}'
        } else {
            c
        },
    ]);
    if c == '"' || c == '\\' {
        assert(s.skip(2) =~= t);
    } else if control(c) {
        let n = c as int;
        reveal_with_fuel(hex_run, 4);
        reveal_with_fuel(hex_value, 4);
        assert(s[0] == '\\');
        assert(!is_hex(' '));
        if n < 16 {
            assert(s[1] == hex_digit(n));
            assert(s[2] == ' ');
            assert(is_hex(hex_digit(n)));
            assert(s.drop_first()[0] == s[1]);
            assert(s.drop_first().drop_first()[0] == ' ');
            assert(hex_run(s.drop_first(), 6) == 1);
            assert(s.subrange(1, 2) =~= seq![hex_digit(n)]);
            assert(s.subrange(1, 2).drop_last() =~= Seq::<char>::empty());
            assert(hex_value(s.subrange(1, 2)) == n);
            assert(s.skip(3) =~= t);
        } else {
            let h = hex_digit(n / 16);
            let l = hex_digit(n % 16);
            assert(s[1] == h);
            assert(s[2] == l);
            assert(s[3] == ' ');
            assert(is_hex(h));
            assert(is_hex(l));
            assert(s.drop_first()[0] == h);
            assert(s.drop_first().drop_first()[0] == l);
            assert(s.drop_first().drop_first().drop_first()[0] == ' ');
            assert(hex_run(s.drop_first(), 6) == 2);
            assert(s.subrange(1, 3) =~= seq![h, l]);
            assert(s.subrange(1, 3).drop_last() =~= seq![h]);
            assert(seq![h].drop_last() =~= Seq::<char>::empty());
            assert(hex_value(seq![h]) == n / 16);
            assert(hex_value(s.subrange(1, 3)) == n);
            assert(s.skip(4) =~= t);
        }
    } else {
        assert(s[0] == c);
        assert(s.drop_first() =~= t);
    }
}

/// An escaped text between double quotes is a CSS string that ends at the closing
/// quote and stands for the text, null characters excepted, which CSS cannot hold.
pub proof fn law_css_string_reads_back(s: Seq<char>, rest: Seq<char>)
    ensures
        read_css_string(css_escaped(s) + seq!['"'] + rest) == Some((without_null(s), rest)),
    decreases s.len(),
{
    if s.len() == 0 {
        let t = css_escaped(s) + seq!['"'] + rest;
        assert(t[0] == '"');
        assert(t.drop_first() =~= rest);
        assert(without_null(s) =~= Seq::<char>::empty());
    } else {
        let c = s[0];
        let t = s.drop_first();
        law_css_string_reads_back(t, rest);
        assert(s =~= seq![c] + t);
        law_escaping_is_piecewise(seq![c], t);
        reveal_with_fuel(css_escaped, 2);
        assert(seq![c].drop_last() =~= Seq::<char>::empty());
        assert(css_escaped(seq![c]) =~= css_char(c));
        let tail = css_escaped(t) + seq!['"'] + rest;
        assert(css_escaped(s) + seq!['"'] + rest =~= css_char(c) + tail);
        lemma_read_css_char(c, tail);
        assert(without_null(seq![c]) + without_null(t) =~= without_null(s));
    }
}

} // verus!
