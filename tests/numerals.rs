use chinese_numerals::numeral::{convert_four_digits, convert_integer};
use chinese_numerals::text::{chinese_digits_text, chinese_numeral, full_width_text, NumberParts};

fn whole(negative: bool, integer_part: u64) -> NumberParts {
    NumberParts { in_range: true, negative, integer_part, has_fraction: false }
}

fn numeral(n: u64, is_formal: bool, lead_one: bool) -> String {
    chinese_numeral(&whole(false, n), &n.to_string(), is_formal, lead_one)
}

#[test]
fn zero_in_both_vocabularies() {
    assert_eq!(numeral(0, false, false), "〇");
    assert_eq!(numeral(0, true, false), "零");
    assert_eq!(numeral(0, false, true), "〇");
    assert_eq!(numeral(0, true, true), "零");
    assert_eq!(convert_integer(0, false, false), "〇");
    assert_eq!(convert_four_digits(0, false, false), "");
}

#[test]
fn ten_with_and_without_leading_one() {
    assert_eq!(numeral(10, false, false), "十");
    assert_eq!(numeral(10, false, true), "一十");
    assert_eq!(numeral(10, true, false), "拾");
    assert_eq!(numeral(10, true, true), "壹拾");
}

#[test]
fn eleven() {
    assert_eq!(numeral(11, false, false), "十一");
    assert_eq!(numeral(19, false, true), "一十九");
}

#[test]
fn twenty() {
    assert_eq!(numeral(20, false, false), "二十");
}

#[test]
fn one_hundred() {
    assert_eq!(numeral(100, false, false), "一百");
}

#[test]
fn ten_only_contracts_for_ten_to_nineteen() {
    assert_eq!(numeral(110, false, false), "一百一十");
    assert_eq!(numeral(1012, false, false), "一千〇一十二");
}

#[test]
fn one_thousand_and_five() {
    assert_eq!(numeral(1005, false, false), "一千〇五");
    assert_eq!(numeral(1005, true, false), "壹仟零伍");
    assert_eq!(numeral(1000, false, false), "一千");
}

#[test]
fn ten_thousand_and_ten() {
    let words = numeral(10010, false, false);
    assert!(words.starts_with("一万"));
    assert_eq!(words.matches('〇').count(), 1);
    assert_eq!(words, "一万〇一十");
    assert_eq!(numeral(10010, false, true), "一万〇一十");
}

#[test]
fn ten_contracts_only_in_the_leading_group() {
    assert_eq!(numeral(100010, false, false), "十万〇一十");
    assert_eq!(numeral(100010, false, true), "一十万〇一十");
    assert_eq!(numeral(1000000015, true, false), "拾亿零壹拾伍");
    assert_eq!(numeral(150000, false, false), "十五万");
    assert_eq!(numeral(10150000, false, false), "一千〇一十五万");
}

#[test]
fn hundred_million() {
    assert_eq!(numeral(100000000, false, false), "一亿");
    assert_eq!(numeral(100000001, false, false), "一亿〇一");
    assert_eq!(numeral(100010000, false, false), "一亿〇一万");
    assert_eq!(numeral(100001000, false, false), "一亿〇一千");
    assert_eq!(numeral(1000005000, false, false), "十亿〇五千");
}

#[test]
fn groups_without_bridge() {
    assert_eq!(numeral(10001000, false, false), "一千万一千");
    assert_eq!(numeral(12345678, true, false), "壹仟贰佰叁拾肆万伍仟陆佰柒拾捌");
}

#[test]
fn largest_integer() {
    assert_eq!(
        convert_integer(u64::MAX, false, false),
        "一千八百四十四京六千七百四十四兆〇七百三十七亿〇九百五十五万一千六百一十五"
    );
}

#[test]
fn negative_fraction() {
    let parts = NumberParts { in_range: true, negative: true, integer_part: 5, has_fraction: true };
    let words = chinese_numeral(&parts, "-5.25", false, false);
    assert!(words.starts_with("负"));
    assert!(words.contains('.'));
    assert_eq!(words, "负五.二五");
}

#[test]
fn fraction_below_one() {
    let parts = NumberParts { in_range: true, negative: false, integer_part: 0, has_fraction: true };
    assert_eq!(chinese_numeral(&parts, "0.5", true, false), "零.伍");
}

#[test]
fn out_of_range_falls_back_to_text() {
    let parts = NumberParts { in_range: false, negative: false, integer_part: 0, has_fraction: false };
    let text = "1000000000000000000000";
    assert_eq!(chinese_numeral(&parts, text, false, false), text);
    assert_eq!(chinese_numeral(&parts, "NaN", true, true), "NaN");
}

#[test]
fn groups_have_no_doubled_or_trailing_zero() {
    for n in 0..=9999u64 {
        for is_formal in [false, true] {
            let zero = if is_formal { '零' } else { '〇' };
            let words: Vec<char> = convert_four_digits(n, is_formal, false).chars().collect();
            for pair in words.windows(2) {
                assert!(!(pair[0] == zero && pair[1] == zero), "doubled zero for {}", n);
            }
            assert_ne!(words.last(), Some(&zero), "trailing zero for {}", n);
            assert_ne!(words.first(), Some(&zero), "leading zero for {}", n);
        }
    }
}

#[test]
fn four_digit_groups() {
    assert_eq!(convert_four_digits(9999, false, false), "九千九百九十九");
    assert_eq!(convert_four_digits(1001, true, false), "壹仟零壹");
    assert_eq!(convert_four_digits(101, false, false), "一百〇一");
    assert_eq!(convert_four_digits(15, false, false), "十五");
    assert_eq!(convert_four_digits(15, false, true), "一十五");
}

#[test]
fn full_width_digits() {
    assert_eq!(full_width_text("123.5"), "１２３．５");
    assert_eq!(full_width_text("-7.5"), "－７．５");
    assert_eq!(full_width_text("inf"), "inf");
    assert_eq!(full_width_text("9876543210"), "９８７６５４３２１０");
}

#[test]
fn chinese_digit_glyphs() {
    assert_eq!(chinese_digits_text("-102.3", false), "负一〇二．三");
    assert_eq!(chinese_digits_text("-102.3", true), "负壹零贰．叁");
    assert_eq!(chinese_digits_text("NaN", false), "");
}

#[test]
fn repeated_calls_agree() {
    let parts = NumberParts { in_range: true, negative: true, integer_part: 1234, has_fraction: true };
    assert_eq!(
        chinese_numeral(&parts, "-1234.5", true, false),
        chinese_numeral(&parts, "-1234.5", true, false)
    );
    assert_eq!(full_width_text("-1.5"), full_width_text("-1.5"));
    assert_eq!(chinese_digits_text("-1.5", false), chinese_digits_text("-1.5", false));
}
