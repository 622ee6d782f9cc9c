//! Glyph tables shared by the numeral renderers.
use vstd::prelude::*;

verus! {

/// The glyph for decimal digit `d` (0 through 9) in the lowercase or the
/// formal vocabulary.
pub open spec fn digit_glyph(d: nat, formal: bool) -> char {
    if formal {
        if d == 1 { '壹' }
        else if d == 2 { '贰' }
        else if d == 3 { '叁' }
        else if d == 4 { '肆' }
        else if d == 5 { '伍' }
        else if d == 6 { '陆' }
        else if d == 7 { '柒' }
        else if d == 8 { '捌' }
        else if d == 9 { '玖' }
        else { '零' }
    } else {
        if d == 1 { '一' }
        else if d == 2 { '二' }
        else if d == 3 { '三' }
        else if d == 4 { '四' }
        else if d == 5 { '五' }
        else if d == 6 { '六' }
        else if d == 7 { '七' }
        else if d == 8 { '八' }
        else if d == 9 { '九' }
        else { '〇' }
    }
}

/// The zero glyph of a vocabulary, used both for the value zero and as the
/// marker of skipped places.
pub open spec fn zero_glyph(formal: bool) -> char {
    digit_glyph(0, formal)
}

/// The unit word for place `i` of a four-digit group: nothing for the ones,
/// then ten, hundred and thousand.
pub open spec fn place_unit(i: nat, formal: bool) -> Seq<char> {
    if i == 1 {
        seq![if formal { '拾' } else { '十' }]
    } else if i == 2 {
        seq![if formal { '佰' } else { '百' }]
    } else if i == 3 {
        seq![if formal { '仟' } else { '千' }]
    } else {
        Seq::empty()
    }
}

/// The unit word for group `k` of four digits, that is for weight 10000^k;
/// shared by both vocabularies.
pub open spec fn group_unit(k: nat) -> Seq<char> {
    if k == 1 {
        seq!['万']
    } else if k == 2 {
        seq!['亿']
    } else if k == 3 {
        seq!['兆']
    } else if k == 4 {
        seq!['京']
    } else {
        Seq::empty()
    }
}

/// The word that marks a negative value.
pub open spec fn negative_glyph() -> char {
    '负'
}

/// The digit value of an ASCII decimal digit.
pub open spec fn ascii_digit_value(c: char) -> nat
    recommends
        '0' <= c <= '9',
{
    (c as u32 - '0' as u32) as nat
}

pub fn digit_glyph_of(d: u64, formal: bool) -> (c: char)
    requires
        d <= 9,
    ensures
        c == digit_glyph(d as nat, formal),
{
    if formal {
        match d {
            1 => '壹',
            2 => '贰',
            3 => '叁',
            4 => '肆',
            5 => '伍',
            6 => '陆',
            7 => '柒',
            8 => '捌',
            9 => '玖',
            _ => '零',
        }
    } else {
        match d {
            1 => '一',
            2 => '二',
            3 => '三',
            4 => '四',
            5 => '五',
            6 => '六',
            7 => '七',
            8 => '八',
            9 => '九',
            _ => '〇',
        }
    }
}

pub fn place_unit_of(i: usize, formal: bool) -> (c: char)
    requires
        1 <= i <= 3,
    ensures
        place_unit(i as nat, formal) == seq![c],
{
    if i == 1 {
        if formal { '拾' } else { '十' }
    } else if i == 2 {
        if formal { '佰' } else { '百' }
    } else {
        if formal { '仟' } else { '千' }
    }
}

pub fn group_unit_of(k: usize) -> (c: char)
    requires
        1 <= k <= 4,
    ensures
        group_unit(k as nat) == seq![c],
{
    if k == 1 {
        '万'
    } else if k == 2 {
        '亿'
    } else if k == 3 {
        '兆'
    } else {
        '京'
    }
}

/// Relies on std's `String::push`: appends the one character at the end.
#[verifier::external_body]
pub(crate) fn push_char(s: &mut String, c: char)
    ensures
        final(s)@ == old(s)@.push(c),
{
    s.push(c);
}

} // verus!
