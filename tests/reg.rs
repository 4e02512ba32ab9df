use rp::pipeline::Op;
use rp::reg::RegArg;

fn records(v: Vec<String>) -> Vec<String> {
    v
}

#[test]
fn test_reg_basic_match() {
    let reg_arg = RegArg::new(r"\d+".to_string(), None).unwrap();
    assert_eq!(reg_arg.replace("abc1d"), "1");
    assert_eq!(reg_arg.replace("abc"), "");
    assert_eq!(reg_arg.replace("123abc456"), "123456");
    assert_eq!(reg_arg.replace("123abc"), "123");
}

#[test]
fn test_reg_with_count() {
    let reg_arg = RegArg::new(r"\d".to_string(), Some(3)).unwrap();
    assert_eq!(reg_arg.replace("1a23"), "123");
    assert_eq!(reg_arg.replace("1a2"), "12");
    assert_eq!(reg_arg.replace("a12b34c56"), "123");

    let reg_arg2 = RegArg::new(r"\d".to_string(), Some(2)).unwrap();
    assert_eq!(reg_arg2.replace("1a23"), "12");
    assert_eq!(reg_arg2.replace("a12b34c56"), "12");

    let reg_arg3 = RegArg::new(r"[a-z]".to_string(), Some(1)).unwrap();
    assert_eq!(reg_arg3.replace("abc123"), "a");
}

#[test]
fn test_reg_multiple_matches() {
    let reg_arg = RegArg::new(r"\d+".to_string(), None).unwrap();
    assert_eq!(reg_arg.replace("a1b2c3"), "123");
    assert_eq!(reg_arg.replace("12-34-56"), "123456");

    let reg_arg2 = RegArg::new(r"[0-9]".to_string(), None).unwrap();
    assert_eq!(reg_arg2.replace("a1b2c3"), "123");
    assert_eq!(reg_arg2.replace("abc"), "");
}

#[test]
fn test_reg_no_match() {
    let reg_arg = RegArg::new(r"\d+".to_string(), None).unwrap();
    assert_eq!(reg_arg.replace("abc"), "");
    assert_eq!(reg_arg.replace("ABC"), "");
    assert_eq!(reg_arg.replace("!@#"), "");

    let reg_arg2 = RegArg::new(r"[A-Z]+".to_string(), None).unwrap();
    assert_eq!(reg_arg2.replace("abc"), "");
    assert_eq!(reg_arg2.replace("123"), "");
}

#[test]
fn test_reg_empty_string() {
    let reg_arg = RegArg::new(r"\d+".to_string(), None).unwrap();
    assert_eq!(reg_arg.replace(""), "");

    let reg_arg2 = RegArg::new(r".*".to_string(), None).unwrap();
    assert_eq!(reg_arg2.replace(""), "");
}

#[test]
fn test_reg_count_exceeds_matches() {
    let reg_arg = RegArg::new(r"\d".to_string(), Some(10)).unwrap();
    assert_eq!(reg_arg.replace("123"), "123");
    assert_eq!(reg_arg.replace("12"), "12");
    assert_eq!(reg_arg.replace("1"), "1");

    let reg_arg2 = RegArg::new(r"\d".to_string(), Some(100)).unwrap();
    assert_eq!(reg_arg2.replace("1a2b3c"), "123");
}

#[test]
fn test_reg_count_one() {
    let reg_arg = RegArg::new(r"\d+".to_string(), Some(1)).unwrap();
    assert_eq!(reg_arg.replace("a1b2c3"), "1");
    assert_eq!(reg_arg.replace("123abc456"), "123");

    let reg_arg2 = RegArg::new(r"\d".to_string(), Some(1)).unwrap();
    assert_eq!(reg_arg2.replace("123"), "1");
}

#[test]
fn test_reg_special_characters() {
    let text_with_newlines = String::from("a\nb\nc");
    let reg_arg = RegArg::new(r"\n".to_string(), None).unwrap();
    assert_eq!(reg_arg.replace(&text_with_newlines), "\n\n");

    let text_with_tabs = String::from("a\tb\tc");
    let reg_arg2 = RegArg::new(r"\t".to_string(), None).unwrap();
    assert_eq!(reg_arg2.replace(&text_with_tabs), "\t\t");

    let text_with_spaces = String::from("a b c");
    let reg_arg3 = RegArg::new(r" ".to_string(), None).unwrap();
    assert_eq!(reg_arg3.replace(&text_with_spaces), "  ");
}

#[test]
fn test_reg_unicode() {
    let reg_arg = RegArg::new(r"[一-龥]".to_string(), None).unwrap();
    assert_eq!(reg_arg.replace("一二三"), "一二三");
    assert_eq!(reg_arg.replace("abc一二三"), "一二三");
    assert_eq!(reg_arg.replace("abc123"), "");

    let reg_arg2 = RegArg::new(r".+".to_string(), None).unwrap();
    assert_eq!(reg_arg2.replace("你好"), "你好");
}

#[test]
fn test_reg_complex_patterns() {
    let reg_arg = RegArg::new(r"\d+".to_string(), None).unwrap();
    assert_eq!(reg_arg.replace("abc123def456"), "123456");

    let reg_arg2 = RegArg::new(r"[a-zA-Z]+".to_string(), None).unwrap();
    assert_eq!(reg_arg2.replace("hello world"), "helloworld");

    let reg_arg3 = RegArg::new(r"\d{4}".to_string(), Some(1)).unwrap();
    assert_eq!(reg_arg3.replace("year 2024 code 12345"), "2024");
}

#[test]
fn test_reg_zero_width_matches() {
    let reg_arg = RegArg::new(r"^".to_string(), None).unwrap();
    assert_eq!(reg_arg.replace("abc"), "");

    let reg_arg2 = RegArg::new(r"$".to_string(), None).unwrap();
    assert_eq!(reg_arg2.replace("abc"), "");
}

#[test]
fn test_reg_continuous_matches() {
    let reg_arg = RegArg::new(r"\d".to_string(), None).unwrap();
    assert_eq!(reg_arg.replace("12345"), "12345");

    let reg_arg2 = RegArg::new(r"[ab]".to_string(), None).unwrap();
    assert_eq!(reg_arg2.replace("aaabbb"), "aaabbb");

    let reg_arg3 = RegArg::new(r"[a-z]".to_string(), Some(2)).unwrap();
    assert_eq!(reg_arg3.replace("abc"), "ab");
}

#[test]
fn test_reg_op_wrap() {
    let input = records(vec!["abc1d", "abc", "1a23"].into_iter().map(|s| s.to_string()).collect());
    let reg_arg = RegArg::new(r"\d+".to_string(), None).unwrap();
    let result = Op::Reg(reg_arg).wrap(input, &[]);
    let output: Vec<String> = result;
    assert_eq!(output, vec!["1", "", "123"]);
}

#[test]
fn test_reg_op_wrap_with_count() {
    let input = records(vec!["1a23", "abc", "12345"].into_iter().map(|s| s.to_string()).collect());
    let reg_arg = RegArg::new(r"\d".to_string(), Some(2)).unwrap();
    let result = Op::Reg(reg_arg).wrap(input, &[]);
    let output: Vec<String> = result;
    assert_eq!(output, vec!["12", "", "12"]);
}

#[test]
fn test_reg_invalid_regex() {
    assert!(RegArg::new(r"[".to_string(), None).is_err());
    assert!(RegArg::new(r"(?P<invalid".to_string(), None).is_err());
    assert!(RegArg::new(r"(*)".to_string(), None).is_err());
}

#[test]
fn test_reg_partial_eq() {
    let reg1 = RegArg::new(r"\d+".to_string(), Some(3)).unwrap();
    let reg2 = RegArg::new(r"\d+".to_string(), Some(3)).unwrap();
    let reg3 = RegArg::new(r"\d+".to_string(), None).unwrap();
    let reg4 = RegArg::new(r"[a-z]+".to_string(), Some(3)).unwrap();

    assert_eq!(reg1, reg2);
    assert_ne!(reg1, reg3);
    assert_ne!(reg1, reg4);
}
