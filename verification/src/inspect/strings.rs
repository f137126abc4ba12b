//! The strings of a PDF as text, and how much of them is kept.

use crate::inspect::pdf::{PdfValue, Shape, object_value, shape};
use crate::limits::{MAX_PDF_FONT_NAME_BYTES, MAX_PDF_METADATA_FIELD_BYTES};
use vstd::prelude::*;
use vstd::string::*;
use vstd::utf8::{
    decode_utf8, encode_scalar, encode_utf8, encode_utf8_decode_utf8, encode_utf8_first_scalar,
    encode_utf8_valid_utf8, is_char_boundary, is_char_boundary_start_end_of_seq, pop_first_scalar,
    valid_utf8,
};

verus! {

/// The longest start of a text whose UTF-8 form takes at most `max` bytes.
pub open spec fn clamped(text: Seq<char>, max: int) -> Seq<char>
    decreases text.len(),
{
    if text.len() == 0 || encode_scalar(text[0] as u32).len() > max {
        Seq::empty()
    } else {
        seq![text[0]] + clamped(text.drop_first(), max - encode_scalar(text[0] as u32).len())
    }
}

/// A clamped text is a start of the text, it fits, and where something is cut
/// the character that follows would not have fitted.
pub proof fn law_clamping_keeps_the_longest_start(text: Seq<char>, max: nat)
    ensures
        clamped(text, max as int).len() <= text.len(),
        clamped(text, max as int) == text.take(clamped(text, max as int).len() as int),
        encode_utf8(clamped(text, max as int)).len() <= max,
        clamped(text, max as int).len() < text.len() ==> encode_utf8(
            text.take(clamped(text, max as int).len() as int + 1),
        ).len() > max,
    decreases text.len(),
{
    let kept = clamped(text, max as int);
    if text.len() == 0 || encode_scalar(text[0] as u32).len() > max {
        if text.len() > 0 {
            assert(text.take(1) =~= seq![text[0]]);
            assert(seq![text[0]].drop_first() =~= Seq::<char>::empty());
            reveal_with_fuel(encode_utf8, 2);
        }
    } else {
        let width = encode_scalar(text[0] as u32).len();
        let rest = text.drop_first();
        law_clamping_keeps_the_longest_start(rest, (max - width) as nat);
        let kept_rest = clamped(rest, max - width);
        assert(kept.drop_first() =~= kept_rest);
        assert(kept =~= text.take(kept.len() as int));
        if kept.len() < text.len() {
            assert(text.take(kept.len() as int + 1).drop_first() =~= rest.take(kept_rest.len() as int + 1));
        }
    }
}

/// A text that fits is kept whole.
proof fn lemma_clamped_whole(text: Seq<char>, max: int)
    requires
        encode_utf8(text).len() <= max,
    ensures
        clamped(text, max) == text,
    decreases text.len(),
{
    if text.len() > 0 {
        lemma_clamped_whole(text.drop_first(), max - encode_scalar(text[0] as u32).len());
        assert(seq![text[0]] + text.drop_first() =~= text);
    }
}

/// The last boundary at or before `max` ends the clamped text.
proof fn lemma_last_boundary(text: Seq<char>, max: int, end: int)
    requires
        0 <= end <= max <= encode_utf8(text).len(),
        is_char_boundary(encode_utf8(text), end),
        forall|i: int| end < i <= max ==> !#[trigger] is_char_boundary(encode_utf8(text), i),
    ensures
        encode_utf8(text).subrange(0, end) == encode_utf8(clamped(text, max)),
    decreases text.len(),
{
    let bytes = encode_utf8(text);
    encode_utf8_valid_utf8(text);
    if text.len() > 0 {
        let width = encode_scalar(text[0] as u32).len() as int;
        let rest = text.drop_first();
        let tail = encode_utf8(rest);
        encode_utf8_first_scalar(text);
        encode_utf8_valid_utf8(rest);
        assert(pop_first_scalar(bytes) =~= tail);
        is_char_boundary_start_end_of_seq(tail);
        assert(is_char_boundary(bytes, width));
        if width > max {
            assert(end == 0) by {
                if end > 0 {
                    assert(is_char_boundary(tail, end - width));
                }
            }
            assert(bytes.subrange(0, 0) =~= Seq::<u8>::empty());
        } else {
            assert(end >= width);
            assert(is_char_boundary(tail, end - width));
            assert forall|i: int| end - width < i <= max - width implies !#[trigger] is_char_boundary(tail, i) by {
                assert(!is_char_boundary(bytes, i + width));
            }
            lemma_last_boundary(rest, max - width, end - width);
            assert(bytes.subrange(0, end) =~= encode_scalar(text[0] as u32) + tail.subrange(0, end - width));
            assert((seq![text[0]] + clamped(rest, max - width)).drop_first() =~= clamped(rest, max - width));
        }
    } else {
        assert(bytes.subrange(0, end) =~= Seq::<u8>::empty());
    }
}

/// The longest start of `s` that takes at most `max_bytes` bytes. A character
/// is never cut.
pub fn clamp_str_bytes(s: &str, max_bytes: usize) -> (r: &str)
    ensures
        r@ == clamped(s@, max_bytes as int),
{
    let ghost bytes = encode_utf8(s@);
    proof {
        encode_utf8_valid_utf8(s@);
        is_char_boundary_start_end_of_seq(bytes);
    }
    if s.as_bytes().len() <= max_bytes {
        proof {
            lemma_clamped_whole(s@, max_bytes as int);
        }
        return s;
    }
    let mut end: usize = max_bytes;
    while end > 0 && !s.is_char_boundary(end)
        invariant
            end <= max_bytes,
            bytes == encode_utf8(s@),
            forall|i: int| end < i <= max_bytes ==> !#[trigger] is_char_boundary(bytes, i),
        decreases end,
    {
        end = end - 1;
    }
    let kept = s.split_at(end).0;
    proof {
        lemma_last_boundary(s@, max_bytes as int, end as int);
        encode_utf8_decode_utf8(kept@);
        encode_utf8_decode_utf8(clamped(s@, max_bytes as int));
    }
    kept
}

/// The start of a font's name that is kept.
pub fn clamp_font_name(name: &str) -> (r: &str)
    ensures
        r@ == clamped(name@, MAX_PDF_FONT_NAME_BYTES as int),
{
    clamp_str_bytes(name, MAX_PDF_FONT_NAME_BYTES)
}

/// The text of a name's bytes: nothing where they are not UTF-8.
pub open spec fn name_of_bytes(bytes: Seq<u8>) -> Option<Seq<char>> {
    if valid_utf8(bytes) {
        Some(decode_utf8(bytes))
    } else {
        None
    }
}

/// The text of a name's bytes.
pub fn name_str(bytes: &[u8]) -> (r: Option<&str>)
    ensures
        match r {
            Some(text) => name_of_bytes(bytes@) == Some(text@),
            None => name_of_bytes(bytes@) is None,
        },
{
    match std::str::from_utf8(bytes) {
        Ok(text) => Some(text),
        Err(_) => None,
    }
}

/// The text of a name: nothing for another value, or for a name that is not
/// UTF-8.
pub open spec fn name_text(value: PdfValue) -> Option<Seq<char>> {
    match value {
        PdfValue::Name(bytes) => name_of_bytes(bytes),
        _ => None,
    }
}

/// The text of an object that is a name.
pub fn obj_as_name_str(obj: &lopdf::Object) -> (r: Option<&str>)
    ensures
        match r {
            Some(text) => name_text(object_value(*obj)) == Some(text@),
            None => name_text(object_value(*obj)) is None,
        },
{
    match shape(obj) {
        Shape::Name(bytes) => name_str(bytes),
        _ => None,
    }
}

/// The sixteen-bit units of big-endian bytes; an odd byte at the end is left
/// out.
pub open spec fn code_units(bytes: Seq<u8>) -> Seq<u16> {
    Seq::new((bytes.len() / 2) as nat, |i: int| (bytes[2 * i] * 256 + bytes[2 * i + 1]) as u16)
}

pub open spec fn high_surrogate(unit: u16) -> bool {
    0xD800 <= unit <= 0xDBFF
}

pub open spec fn low_surrogate(unit: u16) -> bool {
    0xDC00 <= unit <= 0xDFFF
}

/// The text of UTF-16 units: a high surrogate and the low one behind it are
/// one character, and a surrogate that stands alone is replaced.
pub open spec fn utf16_text(units: Seq<u16>) -> Seq<char>
    decreases units.len(),
{
    if units.len() == 0 {
        Seq::empty()
    } else if units.len() > 1 && high_surrogate(units[0]) && low_surrogate(units[1]) {
        seq![(0x10000 + (units[0] - 0xD800) * 0x400 + (units[1] - 0xDC00)) as char] + utf16_text(units.skip(2))
    } else if high_surrogate(units[0]) || low_surrogate(units[0]) {
        seq!['\u{FFFD}'] + utf16_text(units.skip(1))
    } else {
        seq![units[0] as char] + utf16_text(units.skip(1))
    }
}

/// `String::from_utf16_lossy` decodes UTF-16 and puts U+FFFD for what is
/// invalid, which is each surrogate without its partner.
pub assume_specification[ std::string::String::from_utf16_lossy ](v: &[u16]) -> (r: std::string::String)
    ensures
        r@ == utf16_text(v@),
;

/// Whether bytes begin with the mark of big-endian UTF-16.
pub open spec fn has_utf16_mark(bytes: Seq<u8>) -> bool {
    bytes.len() >= 2 && bytes[0] == 0xFE && bytes[1] == 0xFF
}

/// The text of a string: UTF-16 behind its mark, else Latin-1.
pub open spec fn pdf_text(bytes: Seq<u8>) -> Seq<char> {
    if has_utf16_mark(bytes) {
        utf16_text(code_units(bytes.skip(2)))
    } else {
        Seq::new(bytes.len(), |i: int| bytes[i] as char)
    }
}

/// Decodes a string of a PDF: big-endian UTF-16 behind its byte order mark,
/// else one Latin-1 character for each byte. Glyph numbers of a composite font
/// come out as such characters too.
pub fn decode_pdf_string(bytes: &[u8]) -> (r: String)
    ensures
        r@ == pdf_text(bytes@),
{
    let n: usize = bytes.len();
    if n >= 2 && bytes[0] == 0xFE && bytes[1] == 0xFF {
        let mut units: Vec<u16> = Vec::new();
        let mut i: usize = 2;
        while n - i >= 2
            invariant
                n == bytes@.len(),
                2 <= i <= n,
                i == 2 + 2 * units@.len(),
                units@.len() <= code_units(bytes@.skip(2)).len(),
                units@ =~= code_units(bytes@.skip(2)).take(units@.len() as int),
            decreases n - i,
        {
            let unit: u16 = (bytes[i] as u16) * 256 + bytes[i + 1] as u16;
            proof {
                assert(units@.len() < code_units(bytes@.skip(2)).len());
                assert(code_units(bytes@.skip(2))[units@.len() as int] == unit);
            }
            units.push(unit);
            i = i + 2;
        }
        assert(units@ =~= code_units(bytes@.skip(2)));
        return String::from_utf16_lossy(units.as_slice());
    }
    let mut text: String = String::new();
    let mut i: usize = 0;
    while i < n
        invariant
            n == bytes@.len(),
            i <= n,
            text@ =~= Seq::new(i as nat, |j: int| bytes@[j] as char),
        decreases n - i,
    {
        text.push(bytes[i] as char);
        i = i + 1;
    }
    text
}

/// How many bytes of a metadata string are decoded.
pub open spec fn metadata_cut(bytes: Seq<u8>) -> int {
    if bytes.len() <= MAX_PDF_METADATA_FIELD_BYTES {
        bytes.len() as int
    } else if has_utf16_mark(bytes) && (MAX_PDF_METADATA_FIELD_BYTES - 2) % 2 != 0 {
        MAX_PDF_METADATA_FIELD_BYTES - 1
    } else {
        MAX_PDF_METADATA_FIELD_BYTES as int
    }
}

/// The start of a metadata string that is decoded at all. UTF-16 is cut
/// between two units.
pub fn metadata_prefix(bytes: &[u8]) -> (r: &[u8])
    ensures
        r@ == bytes@.take(metadata_cut(bytes@)),
{
    if bytes.len() <= MAX_PDF_METADATA_FIELD_BYTES {
        assert(bytes@.take(bytes@.len() as int) =~= bytes@);
        return bytes;
    }
    let mut end: usize = MAX_PDF_METADATA_FIELD_BYTES;
    if bytes[0] == 0xFE && bytes[1] == 0xFF && (end - 2) % 2 != 0 {
        end = end - 1;
    }
    vstd::slice::slice_subrange(bytes, 0, end)
}

/// The text of a metadata string that is kept.
pub open spec fn metadata_text(bytes: Seq<u8>) -> Seq<char> {
    clamped(pdf_text(bytes.take(metadata_cut(bytes))), MAX_PDF_METADATA_FIELD_BYTES as int)
}

/// A clamped text depends on no more characters than it has bytes.
proof fn lemma_clamped_of_start(text: Seq<char>, n: int, max: int)
    requires
        0 <= n <= text.len(),
        max <= n,
    ensures
        clamped(text.take(n), max) == clamped(text, max),
    decreases text.len(),
{
    if text.len() > 0 && encode_scalar(text[0] as u32).len() <= max {
        assert(encode_scalar(text[0] as u32).len() >= 1);
        assert(text.take(n).drop_first() =~= text.drop_first().take(n - 1));
        lemma_clamped_of_start(text.drop_first(), n - 1, max - encode_scalar(text[0] as u32).len());
    }
}

/// Decoding a start only costs a Latin-1 string nothing: what is kept is what
/// would have been kept of the whole.
pub proof fn law_latin1_metadata_is_clamped_text(bytes: Seq<u8>)
    requires
        !has_utf16_mark(bytes),
    ensures
        metadata_text(bytes) == clamped(pdf_text(bytes), MAX_PDF_METADATA_FIELD_BYTES as int),
{
    let cut = metadata_cut(bytes);
    assert(pdf_text(bytes.take(cut)) =~= pdf_text(bytes).take(cut));
    if bytes.len() > MAX_PDF_METADATA_FIELD_BYTES {
        lemma_clamped_of_start(pdf_text(bytes), cut, MAX_PDF_METADATA_FIELD_BYTES as int);
    } else {
        assert(pdf_text(bytes).take(cut) =~= pdf_text(bytes));
    }
}

/// The start of a UTF-16 string that is decoded holds whole units: they are
/// the first units of the string.
pub proof fn law_metadata_cut_keeps_units_whole(bytes: Seq<u8>)
    requires
        has_utf16_mark(bytes),
    ensures
        has_utf16_mark(bytes.take(metadata_cut(bytes))),
        ({
            let kept = code_units(bytes.take(metadata_cut(bytes)).skip(2));
            kept == code_units(bytes.skip(2)).take(kept.len() as int) && metadata_cut(bytes) - 2 - 2 * kept.len() == if bytes.len()
                <= MAX_PDF_METADATA_FIELD_BYTES {
                bytes.len() % 2
            } else {
                0
            }
        }),
{
    let cut = metadata_cut(bytes);
    let start = bytes.take(cut).skip(2);
    let kept = code_units(start);
    let whole = bytes.skip(2);
    assert(start =~= whole.take(cut - 2));
    assert(kept =~= code_units(whole).take(kept.len() as int));
}

/// A string that is not too long, and whose text is not, is kept whole.
pub proof fn law_short_metadata_is_kept_whole(bytes: Seq<u8>)
    requires
        bytes.len() <= MAX_PDF_METADATA_FIELD_BYTES,
        encode_utf8(pdf_text(bytes)).len() <= MAX_PDF_METADATA_FIELD_BYTES,
    ensures
        metadata_text(bytes) == pdf_text(bytes),
{
    assert(bytes.take(bytes.len() as int) =~= bytes);
    lemma_clamped_whole(pdf_text(bytes), MAX_PDF_METADATA_FIELD_BYTES as int);
}

/// Bytes without a mark are the characters with their numbers.
pub proof fn law_latin1_is_read_byte_by_byte(bytes: Seq<u8>)
    requires
        !has_utf16_mark(bytes),
    ensures
        pdf_text(bytes).len() == bytes.len(),
        forall|i: int| 0 <= i < bytes.len() ==> (#[trigger] pdf_text(bytes)[i]) as int == bytes[i],
{
}

/// A character in UTF-16.
pub open spec fn units_of_char(c: char) -> Seq<u16> {
    let n = c as int;
    if n < 0x10000 {
        seq![n as u16]
    } else {
        seq![(0xD800 + (n - 0x10000) / 0x400) as u16, (0xDC00 + (n - 0x10000) % 0x400) as u16]
    }
}

/// A text in UTF-16.
pub open spec fn units_of_text(text: Seq<char>) -> Seq<u16>
    decreases text.len(),
{
    if text.len() == 0 {
        Seq::empty()
    } else {
        units_of_char(text[0]) + units_of_text(text.drop_first())
    }
}

/// Units as bytes, the high one first.
pub open spec fn big_endian(units: Seq<u16>) -> Seq<u8> {
    Seq::new(
        2 * units.len(),
        |i: int|
            if i % 2 == 0 {
                (units[i / 2] / 256) as u8
            } else {
                (units[i / 2] % 256) as u8
            },
    )
}

proof fn lemma_units_read_back(units: Seq<u16>)
    ensures
        code_units(big_endian(units)) == units,
{
    let bytes = big_endian(units);
    assert forall|i: int| 0 <= i < units.len() implies #[trigger] code_units(bytes)[i] == units[i] by {
        assert((2 * i) / 2 == i);
        assert((2 * i + 1) / 2 == i);
        assert(bytes[2 * i] == units[i] / 256);
        assert(bytes[2 * i + 1] == units[i] % 256);
    }
    assert(code_units(bytes) =~= units);
}

proof fn lemma_no_char_is_a_surrogate(c: char)
    ensures
        0 <= c as int <= 0x10FFFF,
        (c as int) as char == c,
        !(0xD800 <= c as int <= 0xDFFF),
{
}

proof fn lemma_text_reads_back(text: Seq<char>)
    ensures
        utf16_text(units_of_text(text)) == text,
    decreases text.len(),
{
    if text.len() > 0 {
        let c = text[0];
        let rest = text.drop_first();
        lemma_text_reads_back(rest);
        let units = units_of_text(text);
        let n = c as int;
        lemma_no_char_is_a_surrogate(c);
        if n < 0x10000 {
            assert(units.skip(1) =~= units_of_text(rest));
            assert(units[0] == n);
            assert(!high_surrogate(units[0]) && !low_surrogate(units[0]));
            assert(units[0] as char == c);
        } else {
            assert(units.skip(2) =~= units_of_text(rest));
            let v = n - 0x10000;
            assert(0 <= v < 0x100000);
            assert(v == (v / 0x400) * 0x400 + v % 0x400);
            assert(units[0] == 0xD800 + v / 0x400);
            assert(units[1] == 0xDC00 + v % 0x400);
            assert(high_surrogate(units[0]) && low_surrogate(units[1]));
            assert(0x10000 + (units[0] - 0xD800) * 0x400 + (units[1] - 0xDC00) == n);
        }
        assert(seq![c] + rest =~= text);
    }
}

/// A text that was written in big-endian UTF-16 behind its mark is read back.
pub proof fn law_utf16_reads_back(text: Seq<char>)
    ensures
        pdf_text(seq![0xFEu8, 0xFFu8] + big_endian(units_of_text(text))) == text,
{
    let bytes = seq![0xFEu8, 0xFFu8] + big_endian(units_of_text(text));
    assert(bytes.skip(2) =~= big_endian(units_of_text(text)));
    lemma_units_read_back(units_of_text(text));
    lemma_text_reads_back(text);
}

} // verus!
