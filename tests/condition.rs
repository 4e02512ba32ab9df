use rp::condition::{Condition, Select};

#[test]
fn test_text_len_range() {
    assert!(!Select::new_text_len_range(Some(3), Some(5)).yes().test("12"));
    assert!(Select::new_text_len_range(Some(3), Some(5)).yes().test("123"));
    assert!(Select::new_text_len_range(Some(3), Some(5)).yes().test("1234"));
    assert!(Select::new_text_len_range(Some(3), Some(5)).yes().test("12345"));
    assert!(!Select::new_text_len_range(Some(3), Some(5)).yes().test("123456"));
    assert!(!Select::new_text_len_range(Some(3), None).yes().test("12"));
    assert!(Select::new_text_len_range(Some(3), None).yes().test("123"));
    assert!(Select::new_text_len_range(Some(3), None).yes().test("1234"));
    assert!(Select::new_text_len_range(None, Some(3)).yes().test("12"));
    assert!(Select::new_text_len_range(None, Some(3)).yes().test("123"));
    assert!(!Select::new_text_len_range(None, Some(3)).yes().test("1234"));
    assert!(Select::new_text_len_range(None, None).yes().test("123"));
    // not
    assert!(Select::new_text_len_range(Some(3), Some(5)).no().test("12"));
    assert!(!Select::new_text_len_range(Some(3), Some(5)).no().test("123"));
    assert!(!Select::new_text_len_range(Some(3), Some(5)).no().test("1234"));
    assert!(!Select::new_text_len_range(Some(3), Some(5)).no().test("12345"));
    assert!(Select::new_text_len_range(Some(3), Some(5)).no().test("123456"));
    assert!(Select::new_text_len_range(Some(3), None).no().test("12"));
    assert!(!Select::new_text_len_range(Some(3), None).no().test("123"));
    assert!(!Select::new_text_len_range(Some(3), None).no().test("1234"));
    assert!(!Select::new_text_len_range(None, Some(3)).no().test("12"));
    assert!(!Select::new_text_len_range(None, Some(3)).no().test("123"));
    assert!(Select::new_text_len_range(None, Some(3)).no().test("1234"));
    assert!(!Select::new_text_len_range(None, None).no().test("123"));
}

#[test]
fn test_text_len_spec() {
    assert!(Select::TextLenSpec { spec: 0 }.yes().test(""));
    assert!(!Select::TextLenSpec { spec: 0 }.yes().test("1"));
    assert!(!Select::TextLenSpec { spec: 3 }.yes().test(""));
    assert!(!Select::TextLenSpec { spec: 3 }.yes().test("12"));
    assert!(Select::TextLenSpec { spec: 3 }.yes().test("123"));
    assert!(!Select::TextLenSpec { spec: 3 }.yes().test("1234"));
    // not
    assert!(!Select::TextLenSpec { spec: 0 }.no().test(""));
    assert!(Select::TextLenSpec { spec: 0 }.no().test("1"));
    assert!(Select::TextLenSpec { spec: 3 }.no().test(""));
    assert!(Select::TextLenSpec { spec: 3 }.no().test("12"));
    assert!(!Select::TextLenSpec { spec: 3 }.no().test("123"));
    assert!(Select::TextLenSpec { spec: 3 }.no().test("1234"));
}

#[test]
fn test_integer_range() {
    assert!(!Select::new_num_range(Some(3), Some(5)).yes().test("2"));
    assert!(Select::new_num_range(Some(3), Some(5)).yes().test("3"));
    assert!(Select::new_num_range(Some(3), Some(5)).yes().test("4"));
    assert!(Select::new_num_range(Some(3), Some(5)).yes().test("5"));
    assert!(!Select::new_num_range(Some(3), Some(5)).yes().test("6"));
    assert!(!Select::new_num_range(Some(3), None).yes().test("2"));
    assert!(Select::new_num_range(Some(3), None).yes().test("3"));
    assert!(Select::new_num_range(Some(3), None).yes().test("4"));
    assert!(Select::new_num_range(None, Some(3)).yes().test("2"));
    assert!(Select::new_num_range(None, Some(3)).yes().test("3"));
    assert!(!Select::new_num_range(None, Some(3)).yes().test("4"));
    assert!(Select::new_num_range(None, None).yes().test("3"));
    assert!(!Select::new_num_range(None, None).yes().test("abc"));
    assert!(!Select::new_num_range(None, None).yes().test(""));
    // not
    assert!(Select::new_num_range(Some(3), Some(5)).no().test("2"));
    assert!(!Select::new_num_range(Some(3), Some(5)).no().test("3"));
    assert!(!Select::new_num_range(Some(3), Some(5)).no().test("4"));
    assert!(!Select::new_num_range(Some(3), Some(5)).no().test("5"));
    assert!(Select::new_num_range(Some(3), Some(5)).no().test("6"));
    assert!(Select::new_num_range(Some(3), None).no().test("2"));
    assert!(!Select::new_num_range(Some(3), None).no().test("3"));
    assert!(!Select::new_num_range(Some(3), None).no().test("4"));
    assert!(!Select::new_num_range(None, Some(3)).no().test("2"));
    assert!(!Select::new_num_range(None, Some(3)).no().test("3"));
    assert!(Select::new_num_range(None, Some(3)).no().test("4"));
    assert!(!Select::new_num_range(None, None).no().test("3"));
    assert!(!Select::new_num_range(None, None).no().test("abc"));
    assert!(!Select::new_num_range(None, None).no().test(""));
}

#[test]
fn test_integer_spec() {
    assert!(Select::NumSpec { spec: 0 }.yes().test("0"));
    assert!(!Select::NumSpec { spec: 0 }.yes().test("1"));
    assert!(!Select::NumSpec { spec: 3 }.yes().test("1"));
    assert!(Select::NumSpec { spec: 3 }.yes().test("3"));
    assert!(!Select::NumSpec { spec: 3 }.yes().test("abc"));
    assert!(!Select::NumSpec { spec: 3 }.yes().test(""));
    // not
    assert!(!Select::NumSpec { spec: 0 }.no().test("0"));
    assert!(Select::NumSpec { spec: 0 }.no().test("1"));
    assert!(Select::NumSpec { spec: 3 }.no().test("1"));
    assert!(!Select::NumSpec { spec: 3 }.no().test("3"));
    assert!(!Select::NumSpec { spec: 3 }.no().test("abc"));
    assert!(!Select::NumSpec { spec: 3 }.no().test(""));
}

#[test]
fn test_text_all_case() {
    // upper
    assert!(!Select::TextAllCase { upper: true }.yes().test("abc"));
    assert!(Select::TextAllCase { upper: true }.yes().test("ABC"));
    assert!(!Select::TextAllCase { upper: true }.yes().test("abcABC"));
    assert!(Select::TextAllCase { upper: true }.yes().test("你好123.#!@"));
    assert!(Select::TextAllCase { upper: true }.no().test("abc"));
    assert!(!Select::TextAllCase { upper: true }.no().test("ABC"));
    assert!(Select::TextAllCase { upper: true }.no().test("abcABC"));
    assert!(!Select::TextAllCase { upper: true }.no().test("你好123.#!@"));
    // lower
    assert!(Select::TextAllCase { upper: false }.yes().test("abc"));
    assert!(!Select::TextAllCase { upper: false }.yes().test("ABC"));
    assert!(!Select::TextAllCase { upper: false }.yes().test("abcABC"));
    assert!(Select::TextAllCase { upper: false }.yes().test("你好123.#!@"));
    assert!(!Select::TextAllCase { upper: false }.no().test("abc"));
    assert!(Select::TextAllCase { upper: false }.no().test("ABC"));
    assert!(Select::TextAllCase { upper: false }.no().test("abcABC"));
    assert!(!Select::TextAllCase { upper: false }.no().test("你好123.#!@"));
}

#[test]
fn test_ascii() {
    assert!(Select::Ascii { ascii: true }.yes().test("abc"));
    assert!(Select::Ascii { ascii: true }.yes().test(""));
    assert!(Select::Ascii { ascii: true }.yes().test("\n"));
    assert!(!Select::Ascii { ascii: true }.yes().test("你好"));
    assert!(!Select::Ascii { ascii: false }.yes().test("abc"));
    assert!(Select::Ascii { ascii: false }.yes().test(""));
    assert!(!Select::Ascii { ascii: false }.yes().test("\n"));
    assert!(Select::Ascii { ascii: false }.yes().test("你好"));
    // not
    assert!(!Select::Ascii { ascii: true }.no().test("abc"));
    assert!(!Select::Ascii { ascii: true }.no().test(""));
    assert!(!Select::Ascii { ascii: true }.no().test("\n"));
    assert!(Select::Ascii { ascii: true }.no().test("你好"));
    assert!(Select::Ascii { ascii: false }.no().test("abc"));
    assert!(!Select::Ascii { ascii: false }.no().test(""));
    assert!(Select::Ascii { ascii: false }.no().test("\n"));
    assert!(!Select::Ascii { ascii: false }.no().test("你好"));
}

#[test]
fn test_text_empty_or_blank() {
    // empty
    assert!(Select::TextEmptyOrBlank { empty: true }.yes().test(""));
    assert!(!Select::TextEmptyOrBlank { empty: true }.yes().test("abc"));
    assert!(!Select::TextEmptyOrBlank { empty: true }.yes().test(" "));
    assert!(!Select::TextEmptyOrBlank { empty: true }.yes().test(" \n\t\r "));
    assert!(!Select::TextEmptyOrBlank { empty: true }.no().test(""));
    assert!(Select::TextEmptyOrBlank { empty: true }.no().test("abc"));
    assert!(Select::TextEmptyOrBlank { empty: true }.no().test(" "));
    assert!(Select::TextEmptyOrBlank { empty: true }.no().test(" \n\t\r "));
    // blank
    assert!(Select::TextEmptyOrBlank { empty: false }.yes().test(""));
    assert!(!Select::TextEmptyOrBlank { empty: false }.yes().test("abc"));
    assert!(Select::TextEmptyOrBlank { empty: false }.yes().test(" "));
    assert!(Select::TextEmptyOrBlank { empty: false }.yes().test(" \n\t\r "));
    assert!(!Select::TextEmptyOrBlank { empty: false }.no().test(""));
    assert!(Select::TextEmptyOrBlank { empty: false }.no().test("abc"));
    assert!(!Select::TextEmptyOrBlank { empty: false }.no().test(" "));
    assert!(!Select::TextEmptyOrBlank { empty: false }.no().test(" \n\t\r "));
}

#[test]
fn test_reg_match() {
    assert!(Select::new_reg_match(r"[").is_err());
    // yes
    assert!(Select::new_reg_match(r"\d+").unwrap().yes().test("123"));
    assert!(!Select::new_reg_match(r"\d+").unwrap().yes().test("123abc"));
    assert!(!Select::new_reg_match(r"\d+").unwrap().yes().test("123\n123"));
    assert!(!Select::new_reg_match(r"(?m)\d+").unwrap().yes().test("123\n123"));
    assert!(Select::new_reg_match(r"(?m)[\d\n]+").unwrap().yes().test("123\n123"));
    // not
    assert!(!Select::new_reg_match(r"\d+").unwrap().no().test("123"));
    assert!(Select::new_reg_match(r"\d+").unwrap().no().test("123abc"));
    assert!(Select::new_reg_match(r"\d+").unwrap().no().test("123\n123"));
    assert!(Select::new_reg_match(r"(?m)\d+").unwrap().no().test("123\n123"));
    assert!(!Select::new_reg_match(r"(?m)[\d\n]+").unwrap().no().test("123\n123"));
}

#[test]
fn len_range_counts_characters_not_bytes() {
    let c = Condition::new(Select::new_text_len_range(Some(2), Some(3)), false);
    assert!(c.test("你好"));
    assert!(c.test("你好啊"));
    assert!(!c.test("你"));
    let n = Condition::new(Select::new_text_len_range(Some(2), Some(3)), true);
    assert!(!n.test("你好"));
    assert!(n.test("你好啊吗"));
}

#[test]
fn num_range_on_text_that_is_no_number() {
    assert!(!Select::new_num_range(Some(1), Some(5)).yes().test("abc"));
    assert!(!Select::new_num_range(Some(1), Some(5)).no().test("abc"));
    assert!(Select::new_num_range(Some(1), Some(5)).no().test("7"));
}

#[test]
fn integer_reading_edges() {
    assert!(Select::IsInteger.yes().test("-9223372036854775808"));
    assert!(Select::IsInteger.yes().test("+42"));
    assert!(!Select::IsInteger.yes().test("9223372036854775808"));
    assert!(!Select::IsInteger.yes().test("-"));
    assert!(!Select::IsInteger.yes().test("123.0"));
    assert!(!Select::IsInteger.yes().test(" 1"));
    assert!(Select::IsInteger.no().test("abc"));
}

#[test]
fn case_class_uses_unicode_case() {
    assert!(!Select::TextAllCase { upper: true }.yes().test("é"));
    assert!(Select::TextAllCase { upper: true }.yes().test("É"));
    assert!(!Select::TextAllCase { upper: false }.yes().test("Ω"));
    assert!(Select::TextAllCase { upper: false }.yes().test("ω1"));
}
