//! Numeral words for non-negative integers: four-digit groups with place
//! units, stitched together with the units for powers of ten thousand.
use vstd::prelude::*;
use crate::glyphs::{
    digit_glyph, digit_glyph_of, group_unit, group_unit_of, place_unit, place_unit_of, push_char,
    zero_glyph,
};

verus! {

/// 10^i, for the places of a four-digit group (and 10000 beyond them).
pub open spec fn place_weight(i: nat) -> nat {
    if i == 0 {
        1
    } else if i == 1 {
        10
    } else if i == 2 {
        100
    } else if i == 3 {
        1000
    } else {
        10000
    }
}

/// 10000^k, for the four-digit groups of a 64-bit integer (and 10^20 beyond them).
pub open spec fn group_weight(k: nat) -> nat {
    if k == 0 {
        1
    } else if k == 1 {
        10000
    } else if k == 2 {
        1_0000_0000
    } else if k == 3 {
        1_0000_0000_0000
    } else if k == 4 {
        1_0000_0000_0000_0000
    } else {
        1_0000_0000_0000_0000_0000
    }
}

/// Whether the ten of a group of value `n` is written without the digit one
/// before it: only when the group's value is 10 to 19, and the caller did not
/// ask for the one.
pub open spec fn ten_contracted(n: nat, lead_one: bool) -> bool {
    10 <= n <= 19 && !lead_one
}

/// A zero glyph marks skipped places after a non-zero place of weight `p`
/// when something below remains (`r > 0`) but the place right below `p` is zero.
pub open spec fn bridge(r: nat, p: nat, formal: bool) -> Seq<char> {
    if 0 < r && r * 10 < p {
        seq![zero_glyph(formal)]
    } else {
        Seq::empty()
    }
}

/// The words for the lowest `count` places of `m`, from the most significant
/// down, inside a group whose whole value is `n`. Each non-zero digit gives
/// its glyph and its place unit; zero places give nothing but a bridge.
pub open spec fn place_words(n: nat, m: nat, count: nat, formal: bool, lead_one: bool) -> Seq<
    char,
>
    decreases count,
{
    if count == 0 {
        Seq::empty()
    } else {
        let i = (count - 1) as nat;
        let p = place_weight(i);
        let d = m / p;
        let r = m % p;
        let head = if d == 0 {
            Seq::empty()
        } else {
            (if i == 1 && ten_contracted(n, lead_one) {
                Seq::empty()
            } else {
                seq![digit_glyph(d, formal)]
            }) + place_unit(i, formal) + bridge(r, p, formal)
        };
        head + place_words(n, r, i, formal, lead_one)
    }
}

/// The words for one group of four digits (0 to 9999): empty for zero.
pub open spec fn group_words(n: nat, formal: bool, lead_one: bool) -> Seq<char> {
    place_words(n, n, 4, formal, lead_one)
}

fn place_weight_of(i: usize) -> (p: u64)
    requires
        i <= 3,
    ensures
        p as nat == place_weight(i as nat),
{
    if i == 0 {
        1
    } else if i == 1 {
        10
    } else if i == 2 {
        100
    } else {
        1000
    }
}

/// Renders one group of four digits as numeral words, with no leading or
/// trailing zero glyph; zero gives the empty string.
pub fn convert_four_digits(n: u64, is_formal: bool, use_leading_one_for_ten: bool) -> (r: String)
    requires
        n <= 9999,
    ensures
        r@ == group_words(n as nat, is_formal, use_leading_one_for_ten),
{
    let mut result = String::new();
    let mut m: u64 = n;
    let mut count: usize = 4;
    while count > 0
        invariant
            count <= 4,
            n <= 9999,
            m < place_weight(count as nat),
            result@ + place_words(n as nat, m as nat, count as nat, is_formal, use_leading_one_for_ten)
                == group_words(n as nat, is_formal, use_leading_one_for_ten),
        decreases count,
    {
        let i = count - 1;
        let p = place_weight_of(i);
        let d = m / p;
        let r = m % p;
        let ghost before = result@;
        assert(d <= 9) by (nonlinear_arith)
            requires
                m < 10 * p,
                p > 0,
                d == m / p,
        ;
        if d > 0 {
            if !(i == 1 && 10 <= n && n <= 19 && !use_leading_one_for_ten) {
                push_char(&mut result, digit_glyph_of(d, is_formal));
            }
            if i > 0 {
                push_char(&mut result, place_unit_of(i, is_formal));
            }
            if r > 0 && r * 10 < p {
                push_char(&mut result, zero_glyph_of(is_formal));
            }
        }
        assert(result@ == before + (if d == 0 {
            Seq::empty()
        } else {
            (if i == 1 && ten_contracted(n as nat, use_leading_one_for_ten) {
                Seq::empty()
            } else {
                seq![digit_glyph(d as nat, is_formal)]
            }) + place_unit(i as nat, is_formal) + bridge(r as nat, p as nat, is_formal)
        }));
        m = r;
        count = i;
    }
    result
}

/// What a group of value `c` and weight 10000^k writes, with `r` the value of
/// the groups below it: nothing for a zero group, else its words, its unit,
/// and a bridge where the place right below it is zero.
pub open spec fn group_head(c: nat, k: nat, r: nat, formal: bool, lead_one: bool) -> Seq<char> {
    if c == 0 {
        Seq::empty()
    } else {
        group_words(c, formal, lead_one) + group_unit(k) + bridge(r, group_weight(k), formal)
    }
}

/// The words for the lowest `count` groups of four digits of `m`, from the
/// most significant down; `written` tells whether a higher non-zero group
/// stands before them. Each non-zero group gives its words and its unit; zero
/// groups give nothing but a bridge. Only the leading group of the number may
/// write its ten without the digit one.
pub open spec fn groups_words(
    m: nat,
    count: nat,
    formal: bool,
    lead_one: bool,
    written: bool,
) -> Seq<char>
    decreases count,
{
    if count == 0 {
        Seq::empty()
    } else {
        let k = (count - 1) as nat;
        let p = group_weight(k);
        let c = m / p;
        let r = m % p;
        group_head(c, k, r, formal, lead_one || written) + groups_words(
            r,
            k,
            formal,
            lead_one,
            written || c > 0,
        )
    }
}

/// The numeral words of a non-negative integer below 10^20: the zero glyph
/// for zero, otherwise its five groups of four digits.
pub open spec fn integer_words(n: nat, formal: bool, lead_one: bool) -> Seq<char> {
    if n == 0 {
        seq![zero_glyph(formal)]
    } else {
        groups_words(n, 5, formal, lead_one, false)
    }
}

fn group_weight_of(k: usize) -> (p: u64)
    requires
        k <= 4,
    ensures
        p as nat == group_weight(k as nat),
{
    if k == 0 {
        1
    } else if k == 1 {
        10000
    } else if k == 2 {
        1_0000_0000
    } else if k == 3 {
        1_0000_0000_0000
    } else {
        1_0000_0000_0000_0000
    }
}

fn append_group(
    result: &mut String,
    c: u64,
    k: usize,
    r: u64,
    p: u64,
    is_formal: bool,
    lead_one: bool,
)
    requires
        0 < c <= 9999,
        k <= 4,
        r < p,
        p as nat == group_weight(k as nat),
    ensures
        final(result)@ == old(result)@ + group_head(c as nat, k as nat, r as nat, is_formal, lead_one),
{
    let words = convert_four_digits(c, is_formal, lead_one);
    result.append(words.as_str());
    if k > 0 {
        push_char(result, group_unit_of(k));
    }
    if r > 0 && r * 10 < p {
        push_char(result, zero_glyph_of(is_formal));
    }
    assert(final(result)@ =~= old(result)@ + group_head(
        c as nat,
        k as nat,
        r as nat,
        is_formal,
        lead_one,
    ));
}

/// Renders a non-negative integer as numeral words, with the units for ten
/// thousand and its powers, and exactly one zero glyph wherever places are
/// skipped between two non-zero digits. The ten is written without the digit
/// one only in the leading group, and only where the caller does not ask for it.
pub fn convert_integer(n: u64, is_formal: bool, use_leading_one_for_ten: bool) -> (r: String)
    ensures
        r@ == integer_words(n as nat, is_formal, use_leading_one_for_ten),
{
    let mut result = String::new();
    if n == 0 {
        push_char(&mut result, zero_glyph_of(is_formal));
        return result;
    }
    let mut m: u64 = n;
    let mut count: usize = 5;
    let mut written = false;
    while count > 0
        invariant
            count <= 5,
            m < group_weight(count as nat),
            result@ + groups_words(
                m as nat,
                count as nat,
                is_formal,
                use_leading_one_for_ten,
                written,
            ) == groups_words(n as nat, 5, is_formal, use_leading_one_for_ten, false),
        decreases count,
    {
        let k = count - 1;
        let p = group_weight_of(k);
        let c = m / p;
        let r = m % p;
        let ghost before = result@;
        assert(c <= 9999) by (nonlinear_arith)
            requires
                m < 10000 * p,
                p > 0,
                c == m / p,
        ;
        let ghost tail = groups_words(
            r as nat,
            k as nat,
            is_formal,
            use_leading_one_for_ten,
            written || c > 0,
        );
        if c > 0 {
            append_group(&mut result, c, k, r, p, is_formal, use_leading_one_for_ten || written);
        }
        let ghost head = group_head(
            c as nat,
            k as nat,
            r as nat,
            is_formal,
            use_leading_one_for_ten || written,
        );
        assert(groups_words(m as nat, count as nat, is_formal, use_leading_one_for_ten, written)
            == head + tail);
        assert(before + head + tail =~= before + (head + tail));
        written = written || c > 0;
        m = r;
        count = k;
    }
    result
}

/// No two zero glyphs `z` stand next to each other in `s`.
pub open spec fn no_double_zero(s: Seq<char>, z: char) -> bool {
    forall|i: int| 0 <= i && i + 1 < s.len() ==> !(#[trigger] s[i] == z && s[i + 1] == z)
}

/// Neither the first nor the last glyph of `s` is the zero glyph `z`.
pub open spec fn zero_free_ends(s: Seq<char>, z: char) -> bool {
    s.len() > 0 ==> s[0] != z && s.last() != z
}

proof fn lemma_join(a: Seq<char>, b: Seq<char>, z: char)
    requires
        no_double_zero(a, z),
        no_double_zero(b, z),
        a.len() > 0 && b.len() > 0 ==> !(a.last() == z && b[0] == z),
    ensures
        no_double_zero(a + b, z),
{
    let s = a + b;
    assert forall|i: int| 0 <= i && i + 1 < s.len() implies !(#[trigger] s[i] == z && s[i + 1] == z) by {
        if i + 1 < a.len() {
            assert(s[i] == a[i] && s[i + 1] == a[i + 1]);
        } else if i >= a.len() {
            assert(s[i] == b[i - a.len()] && s[i + 1] == b[i - a.len() + 1]);
        } else {
            assert(s[i] == a.last() && s[i + 1] == b[0]);
        }
    }
}

proof fn lemma_place_words_shape(n: nat, m: nat, count: nat, formal: bool, lead_one: bool)
    requires
        count <= 4,
        m < place_weight(count),
    ensures
        no_double_zero(place_words(n, m, count, formal, lead_one), zero_glyph(formal)),
        zero_free_ends(place_words(n, m, count, formal, lead_one), zero_glyph(formal)),
        m == 0 <==> place_words(n, m, count, formal, lead_one).len() == 0,
    decreases count,
{
    let z = zero_glyph(formal);
    if count > 0 {
        let i = (count - 1) as nat;
        let p = place_weight(i);
        let d = m / p;
        let r = m % p;
        assert(d <= 9 && r < p) by (nonlinear_arith)
            requires
                m < 10 * p,
                p > 0,
                d == m / p,
                r == m % p,
        ;
        assert(m == 0 <==> d == 0 && r == 0) by (nonlinear_arith)
            requires
                p > 0,
                d == m / p,
                r == m % p,
        ;
        lemma_place_words_shape(n, r, i, formal, lead_one);
        let rest = place_words(n, r, i, formal, lead_one);
        if d > 0 {
            let x = if i == 1 && ten_contracted(n, lead_one) {
                Seq::empty()
            } else {
                seq![digit_glyph(d, formal)]
            };
            let u = place_unit(i, formal);
            let b = bridge(r, p, formal);
            lemma_join(x, u, z);
            lemma_join(x + u, b, z);
            assert((x + u).len() > 0);
            assert((x + u)[0] != z);
            assert((x + u).last() != z);
            let head = x + u + b;
            lemma_join(head, rest, z);
            assert(place_words(n, m, count, formal, lead_one) == head + rest);
            assert(head[0] != z);
            assert(head.last() == z ==> r > 0);
        }
    }
}

/// The words of a group of four digits never hold two zero glyphs side by
/// side, and neither begin nor end with a zero glyph.
pub proof fn lemma_group_words_zeros(n: nat, formal: bool, lead_one: bool)
    requires
        n <= 9999,
    ensures
        no_double_zero(group_words(n, formal, lead_one), zero_glyph(formal)),
        zero_free_ends(group_words(n, formal, lead_one), zero_glyph(formal)),
{
    lemma_place_words_shape(n, n, 4, formal, lead_one);
}

#[verifier::rlimit(40)]
proof fn lemma_groups_words_shape(
    m: nat,
    count: nat,
    formal: bool,
    lead_one: bool,
    written: bool,
)
    requires
        count <= 5,
        m < group_weight(count),
    ensures
        no_double_zero(groups_words(m, count, formal, lead_one, written), zero_glyph(formal)),
        zero_free_ends(groups_words(m, count, formal, lead_one, written), zero_glyph(formal)),
        m == 0 <==> groups_words(m, count, formal, lead_one, written).len() == 0,
    decreases count,
{
    let z = zero_glyph(formal);
    if count > 0 {
        let k = (count - 1) as nat;
        let p = group_weight(k);
        let c = m / p;
        let r = m % p;
        assert(group_weight(count) == 10000 * p) by {
            if count == 1 {
            } else if count == 2 {
            } else if count == 3 {
            } else if count == 4 {
            } else {
                assert(count == 5);
            }
        }
        assert(c <= 9999 && r < p) by (nonlinear_arith)
            requires
                m < 10000 * p,
                p > 0,
                c == m / p,
                r == m % p,
        ;
        assert(m == 0 <==> c == 0 && r == 0) by (nonlinear_arith)
            requires
                p > 0,
                c == m / p,
                r == m % p,
        ;
        lemma_groups_words_shape(r, k, formal, lead_one, written || c > 0);
        let rest = groups_words(r, k, formal, lead_one, written || c > 0);
        if c > 0 {
            let g = group_words(c, formal, lead_one || written);
            lemma_place_words_shape(c, c, 4, formal, lead_one || written);
            let u = group_unit(k);
            let b = bridge(r, p, formal);
            lemma_join(g, u, z);
            lemma_join(g + u, b, z);
            assert((g + u)[0] != z);
            assert((g + u).last() != z);
            let head = g + u + b;
            lemma_join(head, rest, z);
            assert(groups_words(m, count, formal, lead_one, written) == head + rest);
            assert(head[0] != z);
            assert(head.last() == z ==> r > 0);
        }
    }
}

/// The words of a non-negative integer never hold two zero glyphs side by
/// side; those of a positive integer neither begin nor end with a zero glyph.
pub proof fn lemma_integer_words_zeros(n: u64, formal: bool, lead_one: bool)
    ensures
        no_double_zero(integer_words(n as nat, formal, lead_one), zero_glyph(formal)),
        n > 0 ==> zero_free_ends(integer_words(n as nat, formal, lead_one), zero_glyph(formal)),
{
    if n > 0 {
        lemma_groups_words_shape(n as nat, 5, formal, lead_one, false);
    }
}

fn zero_glyph_of(formal: bool) -> (c: char)
    ensures
        c == zero_glyph(formal),
{
    digit_glyph_of(0, formal)
}

} // verus!
