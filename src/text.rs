//! Renderings built from a number's decimal text: full-width digits, Chinese
//! digit glyphs without place units, and the numeral words of a number whose
//! sign, integer part and fraction have been taken apart.
use vstd::prelude::*;
use crate::glyphs::{ascii_digit_value, digit_glyph, digit_glyph_of, negative_glyph, push_char};
use crate::numeral::{convert_integer, integer_words};

verus! {

pub open spec fn is_ascii_digit(c: char) -> bool {
    '0' <= c <= '9'
}

/// The full-width form of an ASCII digit value.
pub open spec fn full_width_digit(d: nat) -> char {
    if d == 1 { '１' }
    else if d == 2 { '２' }
    else if d == 3 { '３' }
    else if d == 4 { '４' }
    else if d == 5 { '５' }
    else if d == 6 { '６' }
    else if d == 7 { '７' }
    else if d == 8 { '８' }
    else if d == 9 { '９' }
    else { '０' }
}

/// ASCII digits, the minus sign and the decimal point become their
/// full-width forms; every other character stays as it is.
pub open spec fn full_width_char(c: char) -> char {
    if is_ascii_digit(c) {
        full_width_digit(ascii_digit_value(c))
    } else if c == '.' {
        '．'
    } else if c == '-' {
        '－'
    } else {
        c
    }
}

pub open spec fn full_width(s: Seq<char>) -> Seq<char> {
    s.map_values(|c: char| full_width_char(c))
}

/// What one character of a decimal text becomes among Chinese digit glyphs:
/// a digit its glyph, the minus sign the negative word, the decimal point a
/// full-width point, and anything else nothing.
pub open spec fn chinese_digit_chars(c: char, formal: bool) -> Seq<char> {
    if is_ascii_digit(c) {
        seq![digit_glyph(ascii_digit_value(c), formal)]
    } else if c == '-' {
        seq![negative_glyph()]
    } else if c == '.' {
        seq!['．']
    } else {
        Seq::empty()
    }
}

pub open spec fn chinese_digits(s: Seq<char>, formal: bool) -> Seq<char>
    decreases s.len(),
{
    if s.len() == 0 {
        Seq::empty()
    } else {
        chinese_digits(s.drop_last(), formal) + chinese_digit_chars(s.last(), formal)
    }
}

/// The digit glyphs of the ASCII digits of `s`, in order; other characters
/// are dropped.
pub open spec fn digit_glyphs(s: Seq<char>, formal: bool) -> Seq<char>
    decreases s.len(),
{
    if s.len() == 0 {
        Seq::empty()
    } else {
        digit_glyphs(s.drop_last(), formal) + (if is_ascii_digit(s.last()) {
            seq![digit_glyph(ascii_digit_value(s.last()), formal)]
        } else {
            Seq::empty()
        })
    }
}

/// What follows the first decimal point of `s`; empty where there is none.
pub open spec fn after_point(s: Seq<char>) -> Seq<char>
    decreases s.len(),
{
    if s.len() == 0 {
        Seq::empty()
    } else if s[0] == '.' {
        s.skip(1)
    } else {
        after_point(s.skip(1))
    }
}

fn full_width_char_of(c: char) -> (r: char)
    ensures
        r == full_width_char(c),
{
    match c {
        '0' => '０',
        '1' => '１',
        '2' => '２',
        '3' => '３',
        '4' => '４',
        '5' => '５',
        '6' => '６',
        '7' => '７',
        '8' => '８',
        '9' => '９',
        '.' => '．',
        '-' => '－',
        _ => c,
    }
}

/// Replaces each ASCII digit, minus sign and decimal point of a decimal text
/// by its full-width form; other characters pass through unchanged.
pub fn full_width_text(text: &str) -> (r: String)
    ensures
        r@ == full_width(text@),
{
    let len = text.unicode_len();
    let mut result = String::new();
    let mut i: usize = 0;
    while i < len
        invariant
            len == text@.len(),
            i <= len,
            result@ == full_width(text@.subrange(0, i as int)),
        decreases len - i,
    {
        let c = text.get_char(i);
        push_char(&mut result, full_width_char_of(c));
        assert(text@.subrange(0, i + 1) == text@.subrange(0, i as int).push(c));
        i += 1;
        assert(result@ =~= full_width(text@.subrange(0, i as int)));
    }
    assert(text@.subrange(0, len as int) == text@);
    result
}

fn digit_value_of(c: char) -> (d: u64)
    requires
        is_ascii_digit(c),
    ensures
        d as nat == ascii_digit_value(c),
        d <= 9,
{
    (c as u32 - '0' as u32) as u64
}

/// Transliterates a decimal text into Chinese digit glyphs, keeping the order
/// of its characters: digits become the vocabulary's digit glyphs, the minus
/// sign the negative word, the decimal point a full-width point, and any other
/// character is dropped. No place units are written.
pub fn chinese_digits_text(text: &str, is_formal: bool) -> (r: String)
    ensures
        r@ == chinese_digits(text@, is_formal),
{
    let len = text.unicode_len();
    let mut result = String::new();
    let mut i: usize = 0;
    while i < len
        invariant
            len == text@.len(),
            i <= len,
            result@ == chinese_digits(text@.subrange(0, i as int), is_formal),
        decreases len - i,
    {
        let c = text.get_char(i);
        if '0' <= c && c <= '9' {
            push_char(&mut result, digit_glyph_of(digit_value_of(c), is_formal));
        } else if c == '-' {
            push_char(&mut result, '负');
        } else if c == '.' {
            push_char(&mut result, '．');
        }
        let ghost prefix = text@.subrange(0, i + 1);
        assert(prefix.drop_last() == text@.subrange(0, i as int));
        assert(prefix.last() == c);
        i += 1;
        assert(result@ =~= chinese_digits(text@.subrange(0, i as int), is_formal));
    }
    assert(text@.subrange(0, len as int) == text@);
    result
}

/// Appends the digit glyphs of the ASCII digits of `text` from position
/// `start` on.
fn push_digit_glyphs(result: &mut String, text: &str, start: usize, is_formal: bool)
    requires
        start <= text@.len(),
    ensures
        final(result)@ == old(result)@ + digit_glyphs(text@.skip(start as int), is_formal),
{
    let len = text.unicode_len();
    let mut i: usize = start;
    while i < len
        invariant
            len == text@.len(),
            start <= i <= len,
            result@ == old(result)@ + digit_glyphs(
                text@.subrange(start as int, i as int),
                is_formal,
            ),
        decreases len - i,
    {
        let c = text.get_char(i);
        if '0' <= c && c <= '9' {
            push_char(result, digit_glyph_of(digit_value_of(c), is_formal));
        }
        let ghost part = text@.subrange(start as int, i + 1);
        assert(part.drop_last() == text@.subrange(start as int, i as int));
        assert(part.last() == c);
        i += 1;
        assert(result@ =~= old(result)@ + digit_glyphs(
            text@.subrange(start as int, i as int),
            is_formal,
        ));
    }
    assert(text@.subrange(start as int, len as int) == text@.skip(start as int));
}

/// The position just after the first decimal point of `text`, or its length
/// where it has none; what follows is `after_point`.
fn fraction_start(text: &str) -> (start: usize)
    ensures
        start <= text@.len(),
        text@.skip(start as int) == after_point(text@),
{
    let len = text.unicode_len();
    let mut i: usize = 0;
    assert(text@.skip(0) =~= text@);
    while i < len
        invariant
            len == text@.len(),
            i <= len,
            after_point(text@.skip(i as int)) == after_point(text@),
        decreases len - i,
    {
        let c = text.get_char(i);
        let ghost rest = text@.skip(i as int);
        assert(rest[0] == c);
        assert(rest.skip(1) =~= text@.skip(i + 1));
        if c == '.' {
            return i + 1;
        }
        i += 1;
    }
    assert(text@.skip(len as int) =~= Seq::<char>::empty());
    len
}

/// A number taken apart for numeral words: whether it can be written in words
/// at all (finite, and of magnitude at most 9,999,999,999,999,999,999), its
/// sign, its integer magnitude, and whether it has a fraction worth writing.
#[derive(Clone, Copy, Debug, PartialEq, Eq)]
pub struct NumberParts {
    pub in_range: bool,
    pub negative: bool,
    pub integer_part: u64,
    pub has_fraction: bool,
}

/// The numeral words of a number given by its parts and its decimal text:
/// out of range, the text itself; otherwise the negative word for a negative
/// sign, the words of the integer part (the zero glyph for zero), and for a
/// fraction a point followed by the digit glyphs of the text's fraction
/// digits, without place units.
pub open spec fn numeral_text(
    parts: NumberParts,
    rendering: Seq<char>,
    formal: bool,
    lead_one: bool,
) -> Seq<char> {
    if !parts.in_range {
        rendering
    } else {
        (if parts.negative {
            seq![negative_glyph()]
        } else {
            Seq::empty()
        }) + integer_words(parts.integer_part as nat, formal, lead_one) + (if parts.has_fraction {
            seq!['.'] + digit_glyphs(after_point(rendering), formal)
        } else {
            Seq::empty()
        })
    }
}

/// Writes a number in Chinese numeral words, from its parts and its decimal
/// text (from which the fraction digits are taken as printed).
pub fn chinese_numeral(
    parts: &NumberParts,
    rendering: &str,
    is_formal: bool,
    use_leading_one_for_ten: bool,
) -> (r: String)
    ensures
        r@ == numeral_text(*parts, rendering@, is_formal, use_leading_one_for_ten),
{
    if !parts.in_range {
        return String::from_str(rendering);
    }
    let mut result = String::new();
    if parts.negative {
        push_char(&mut result, '负');
    }
    let words = convert_integer(parts.integer_part, is_formal, use_leading_one_for_ten);
    result.append(words.as_str());
    if parts.has_fraction {
        push_char(&mut result, '.');
        let start = fraction_start(rendering);
        push_digit_glyphs(&mut result, rendering, start, is_formal);
    }
    assert(result@ =~= numeral_text(*parts, rendering@, is_formal, use_leading_one_for_ten));
    result
}

/// The renderings depend on their inputs alone: two results that meet the
/// contracts of `chinese_numeral`, `full_width_text` and `chinese_digits_text`
/// on the same inputs are the same text.
pub proof fn lemma_renderings_deterministic(
    parts: NumberParts,
    text: Seq<char>,
    formal: bool,
    lead_one: bool,
    a: Seq<char>,
    b: Seq<char>,
)
    ensures
        a == numeral_text(parts, text, formal, lead_one) && b == numeral_text(
            parts,
            text,
            formal,
            lead_one,
        ) ==> a == b,
        a == full_width(text) && b == full_width(text) ==> a == b,
        a == chinese_digits(text, formal) && b == chinese_digits(text, formal) ==> a == b,
{
}

} // verus!
