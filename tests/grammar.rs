use rp::grammar::{
    parse_arg, parse_clip, parse_cmd_arg, parse_cmd_arg_or_args1, parse_cmd_args1, parse_file, parse_gen, parse_input, parse_of,
    parse_repeat, parse_std_in,
};
use rp::pipeline::Input;

fn ok(input: Input) -> Result<(String, Input), String> {
    Ok((String::new(), input))
}

fn strings(v: Vec<&str>) -> Vec<String> {
    v.into_iter().map(|s| s.to_string()).collect()
}

#[test]
fn input_test_parse_std_in() {
    assert_eq!(parse_std_in("in "), ok(Input::StdIn));
    assert_eq!(parse_std_in("IN "), ok(Input::StdIn));
    assert!(parse_std_in("ina ").is_err());
}

#[test]
fn input_test_parse_file() {
    assert_eq!(parse_file("file f.txt "), ok(Input::File { files: strings(vec!["f.txt"]) }));
    assert_eq!(parse_file(r#"file "f .txt" "#), ok(Input::File { files: strings(vec!["f .txt"]) }));
    assert_eq!(parse_file("file [ f.txt ] "), ok(Input::File { files: strings(vec!["f.txt"]) }));
    assert_eq!(
        parse_file(r#"file [ f.txt "f .txt" ] "#),
        ok(Input::File { files: strings(vec!["f.txt", "f .txt"]) })
    );
    assert!(parse_file("files f.txt ").is_err());
    assert!(parse_file("file [ ] ").is_err());
    assert!(parse_file("file [  ] ").is_err());
    assert!(parse_file("file [ [ ] ").is_err());
    assert!(parse_file("file [ ] ] ").is_err());
    assert!(parse_file("file [ f.txt [ ] ").is_err());
}

#[test]
fn input_test_parse_clip() {
    assert_eq!(parse_clip("clip "), ok(Input::Clip));
    assert!(parse_clip("clip").is_err());
}

#[test]
fn input_test_parse_of() {
    assert_eq!(parse_of("of str "), ok(Input::Of { values: strings(vec!["str"]) }));
    assert_eq!(parse_of(r#"of "s tr" "#), ok(Input::Of { values: strings(vec!["s tr"]) }));
    assert_eq!(parse_of("of [ str ] "), ok(Input::Of { values: strings(vec!["str"]) }));
    assert_eq!(parse_of(r#"of [ str "s tr" ] "#), ok(Input::Of { values: strings(vec!["str", "s tr"]) }));
    assert_eq!(parse_of("of [ \\[ \\[ \\] ] "), ok(Input::Of { values: strings(vec!["[", "[", "]"]) }));
    assert!(parse_of("ofs str ").is_err());
    assert!(parse_of("of [ ] ").is_err());
    assert!(parse_of("of [  ] ").is_err());
    assert!(parse_of("of [ [ ] ").is_err());
    assert!(parse_of("of [ ] ] ").is_err());
    assert!(parse_of("of [ str [ ] ").is_err());
}

#[test]
fn test_parse_gen() {
    assert_eq!(parse_gen("gen 0,=10,2 "), ok(Input::Gen { start: 0, end: 10, included: true, step: 2 }));
    assert_eq!(parse_gen("gen 0,10,2 "), ok(Input::Gen { start: 0, end: 10, included: false, step: 2 }));
    assert_eq!(parse_gen("gen 0,=10 "), ok(Input::Gen { start: 0, end: 10, included: true, step: 1 }));
    assert_eq!(parse_gen("gen 0,10 "), ok(Input::Gen { start: 0, end: 10, included: false, step: 1 }));
    assert_eq!(parse_gen("gen 0,,2 "), ok(Input::Gen { start: 0, end: i64::MAX, included: false, step: 2 }));
    assert_eq!(parse_gen("gen 0 "), ok(Input::Gen { start: 0, end: i64::MAX, included: false, step: 1 }));
}

#[test]
fn test_parse_repeat() {
    assert_eq!(parse_repeat("repeat abc "), ok(Input::Repeat { value: "abc".to_string(), count: None }));
    assert_eq!(parse_repeat("repeat abc 10 "), ok(Input::Repeat { value: "abc".to_string(), count: Some(10) }));
}

#[test]
fn gen_refuses_a_zero_step() {
    assert!(parse_gen("gen 0,10,0 ").is_err());
    assert_eq!(parse_gen("gen -5,=-1,-2 "), ok(Input::Gen { start: -5, end: -1, included: true, step: -2 }));
}

#[test]
fn parse_leaves_the_rest() {
    assert_eq!(
        parse_file("file a.txt :upper "),
        Ok((":upper ".to_string(), Input::File { files: strings(vec!["a.txt"]) }))
    );
    assert_eq!(parse_input(":upper "), Ok((":upper ".to_string(), Input::StdIn)));
    assert_eq!(parse_input("gen 1,3 :count "), Ok((":count ".to_string(), Input::Gen { start: 1, end: 3, included: false, step: 1 })));
    assert_eq!(parse_input("CLIP "), ok(Input::Clip));
}

#[test]
fn parse_input_keyword_with_bad_argument_fails() {
    assert!(parse_input("file [ ] ").is_err());
    assert!(parse_input("of ] ").is_err());
    assert!(parse_input("gen x ").is_err());
}

fn done<T>(v: T) -> Result<(String, T), String> {
    Ok((String::new(), v))
}

#[test]
fn test_cmd_arg_or_args1() {
    assert_eq!(parse_cmd_arg_or_args1("cmd", "cmd arg "), done(strings(vec!["arg"])));
    assert_eq!(parse_cmd_arg_or_args1("cmd", "cmd [ arg ] "), done(strings(vec!["arg"])));
    assert_eq!(parse_cmd_arg_or_args1("cmd", "cmd [ arg arg1 ] "), done(strings(vec!["arg", "arg1"])));
    assert_eq!(parse_cmd_arg_or_args1("cmd", r#"cmd [ arg "arg 1" ] "#), done(strings(vec!["arg", "arg 1"])));
    assert!(parse_cmd_arg_or_args1("cmd", "cmd").is_err());
    assert!(parse_cmd_arg_or_args1("cmd", "cmd ").is_err());
    assert!(parse_cmd_arg_or_args1("cmd", "cmd [ arg ").is_err());
    assert!(parse_cmd_arg_or_args1("cmd", "cmd [ ] ").is_err());
    assert!(parse_cmd_arg_or_args1("cmd", "cmd [ [ ] ").is_err());
    assert!(parse_cmd_arg_or_args1("cmd", "cmd ] ").is_err());
}

#[test]
fn test_cmd_arg() {
    assert_eq!(parse_cmd_arg("cmd", "cmd arg "), done("arg".to_string()));
    assert_eq!(parse_cmd_arg("cmd", r#"cmd "ar g" "#), done("ar g".to_string()));
    assert!(parse_cmd_arg("cmd1", "cmd arg ").is_err());
}

#[test]
fn test_cmd_args1() {
    assert_eq!(parse_cmd_args1("cmd", "cmd [ arg ] "), done(strings(vec!["arg"])));
    assert_eq!(parse_cmd_args1("cmd", "cmd [ arg1 arg2 ] "), done(strings(vec!["arg1", "arg2"])));
    assert_eq!(parse_cmd_args1("cmd", r#"cmd [ arg1 arg2 "arg 3" ] "#), done(strings(vec!["arg1", "arg2", "arg 3"])));
    assert!(parse_cmd_args1("cmd", r#"cmd [ ] "#).is_err());
    assert!(parse_cmd_args1("cmd", r#"cmd [  ] "#).is_err());
}

#[test]
fn test_arg() {
    assert_eq!(parse_arg("hello"), Ok((String::new(), "hello".to_string())));
    assert_eq!(parse_arg("hello "), Ok((" ".to_string(), "hello".to_string())));
    assert_eq!(parse_arg("hello world"), Ok((" world".to_string(), "hello".to_string())));
    assert_eq!(parse_arg(r#"hello" world"#), Ok((r#"" world"#.to_string(), "hello".to_string())));
    assert_eq!(parse_arg(r#""hello " world"#), Ok((" world".to_string(), "hello ".to_string())));
    assert!(parse_arg(r#""hello "#).is_err());
    assert!(parse_arg("[ ").is_err());
    assert!(parse_arg("] ").is_err());
}
