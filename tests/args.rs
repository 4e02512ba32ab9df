use rp::args::{
    escaped, parse_arg_or_arg1, parse_args, parse_config, parse_configs, parse_general_file_info, parse_op, parse_ops, parse_output, ArgStream,
};
use rp::config::{is_nocase, Config};
use rp::err::RpErr;
use rp::op::CaseArg;
use rp::pipeline::{Input, Op, Output};

fn stream(line: &str) -> ArgStream {
    ArgStream::new(line.split(' ').filter(|s| !s.is_empty()).map(String::from).collect())
}

#[test]
fn configs_at_the_front() {
    let mut args = stream("-v --nocase -d in");
    assert_eq!(parse_configs(&mut args), vec![Config::Verbose, Config::Nocase, Config::DryRun]);
    assert_eq!(args.remaining(), vec!["in"]);
    assert_eq!(parse_config(Some(&"--eval".to_string())), Some(Config::Eval));
    assert_eq!(parse_config(Some(&"-x".to_string())), None);
    assert_eq!(parse_config(None), None);
}

#[test]
fn nocase_from_flag_or_switch() {
    assert!(is_nocase(true, &[]));
    assert!(is_nocase(false, &[Config::Verbose, Config::Nocase]));
    assert!(!is_nocase(false, &[Config::Verbose]));
}

#[test]
fn arg_or_list() {
    let mut args = stream("one two");
    assert_eq!(parse_arg_or_arg1(&mut args, "of", "values").unwrap(), vec!["one"]);
    assert_eq!(args.remaining(), vec!["two"]);
    let mut args = stream("[ a \\[ b ] rest");
    assert_eq!(parse_arg_or_arg1(&mut args, "of", "values").unwrap(), vec!["a", "[", "b"]);
    assert_eq!(args.remaining(), vec!["rest"]);
}

#[test]
fn arg_errors() {
    let e = |line: &str| parse_arg_or_arg1(&mut stream(line), "of", "values").unwrap_err();
    assert_eq!(e(""), RpErr::MissingArg { cmd: "of".to_string(), arg: "values".to_string() });
    assert_eq!(e("[ ]"), RpErr::ArgNotEnough { cmd: "of".to_string(), arg: "values".to_string() });
    assert_eq!(e("[ a b"), RpErr::UnclosingMultiArg { cmd: "of".to_string(), arg: "values".to_string() });
    assert_eq!(e("] a"), RpErr::UnexpectedClosingBracket { cmd: "of".to_string(), arg: "values".to_string() });
    assert_eq!(e("[ [ a ]"), RpErr::UnexpectedOpeningBracket { cmd: "of".to_string(), arg: "values".to_string() });
    assert_eq!(e("[ a [ ]"), RpErr::UnexpectedOpeningBracket { cmd: "of".to_string(), arg: "values".to_string() });
}

#[test]
fn escapes() {
    assert_eq!(escaped("\\[".to_string()), "[");
    assert_eq!(escaped("\\]".to_string()), "]");
    assert_eq!(escaped("\\x".to_string()), "\\x");
}

#[test]
fn file_info_forms() {
    let mut args = stream("out.txt append crlf more");
    assert_eq!(parse_general_file_info(&mut args), Some(("out.txt".to_string(), true, Some(true))));
    assert_eq!(args.remaining(), vec!["more"]);
    let mut args = stream("out.txt LF");
    assert_eq!(parse_general_file_info(&mut args), Some(("out.txt".to_string(), false, Some(false))));
    let mut args = stream("out.txt other");
    assert_eq!(parse_general_file_info(&mut args), Some(("out.txt".to_string(), false, None)));
    assert_eq!(parse_general_file_info(&mut stream("")), None);
}

#[test]
fn output_forms() {
    assert_eq!(parse_output(&mut stream("")), Ok(Output::Out));
    assert_eq!(parse_output(&mut stream("to out")), Ok(Output::Out));
    assert_eq!(
        parse_output(&mut stream("to file a.txt append")),
        Ok(Output::File { file: "a.txt".to_string(), append: true, crlf: None })
    );
    assert_eq!(parse_output(&mut stream("TO clip crlf")), Ok(Output::Clip { crlf: Some(true) }));
    assert_eq!(
        parse_output(&mut stream("to file")),
        Err(RpErr::MissingArg { cmd: "to file".to_string(), arg: "file".to_string() })
    );
}

#[test]
fn exit_codes_are_distinct_and_positive() {
    let errs = vec![
        RpErr::ParseConfigTokenErr(String::new()),
        RpErr::UnknownArgs { args: vec![] },
        RpErr::ParseRegexErr { reg: String::new(), err: String::new() },
        RpErr::WriteToOutputFileErr { file: String::new(), item: String::new(), err: String::new() },
    ];
    let codes: Vec<u8> = errs.iter().map(|e| e.exit_code()).collect();
    assert_eq!(codes, vec![1, 11, 12, 18]);
}

fn build_args(line: &str) -> ArgStream {
    ArgStream::new(line.split(' ').map(String::from).collect())
}

fn replace_op<'a>(f: &'a str, t: &'a str, c: Option<usize>, n: bool) -> impl Fn(&Op) -> bool + 'a {
    move |op| match op {
        Op::Replace { from, to, count, nocase } => from == f && to == t && *count == c && *nocase == n,
        _ => false,
    }
}

#[test]
fn test_non_match() {
    let mut args = build_args("");
    assert!(matches!(parse_op(&mut args), Ok(None)));
    assert_eq!(Some("".to_string()), args.next());
}

#[test]
fn args_parse_case_words() {
    let mut args = build_args("upper");
    assert!(matches!(parse_op(&mut args), Ok(Some(Op::Case(CaseArg::Upper)))));
    assert!(args.next().is_none());
    let mut args = build_args("lower");
    assert!(matches!(parse_op(&mut args), Ok(Some(Op::Case(CaseArg::Lower)))));
    assert!(args.next().is_none());
    let mut args = build_args("case");
    assert!(matches!(parse_op(&mut args), Ok(Some(Op::Case(CaseArg::Switch)))));
    assert!(args.next().is_none());
}

#[test]
fn args_parse_replace() {
    let mut args = build_args("replace 123 abc");
    assert!(replace_op("123", "abc", None, false)(&parse_op(&mut args).unwrap().unwrap()));
    assert!(args.next().is_none());
    let mut args = build_args("replace 123 abc 10");
    assert!(replace_op("123", "abc", Some(10), false)(&parse_op(&mut args).unwrap().unwrap()));
    assert!(args.next().is_none());
    let mut args = build_args("replace 123 abc nocase");
    assert!(replace_op("123", "abc", None, true)(&parse_op(&mut args).unwrap().unwrap()));
    assert!(args.next().is_none());
    let mut args = build_args("replace 123 abc 10 nocase");
    assert!(replace_op("123", "abc", Some(10), true)(&parse_op(&mut args).unwrap().unwrap()));
    assert!(args.next().is_none());
    let mut args = build_args("replace 123");
    assert_eq!(parse_op(&mut args).err(), Some(RpErr::MissingArg { cmd: "replace".to_string(), arg: "to".to_string() }));
    assert!(args.next().is_none());
    let mut args = build_args("replace");
    assert_eq!(parse_op(&mut args).err(), Some(RpErr::MissingArg { cmd: "replace".to_string(), arg: "from".to_string() }));
    assert!(args.next().is_none());
}

#[test]
fn args_parse_uniq() {
    let mut args = build_args("uniq");
    assert!(matches!(parse_op(&mut args), Ok(Some(Op::Uniq { nocase: false }))));
    assert!(args.next().is_none());
    let mut args = build_args("uniq nocase");
    assert!(matches!(parse_op(&mut args), Ok(Some(Op::Uniq { nocase: true }))));
    assert!(args.next().is_none());
}

#[test]
fn args_parse_steps_until_output() {
    let mut args = build_args("upper uniq nocase to out");
    let ops = parse_ops(&mut args).unwrap();
    assert_eq!(ops.len(), 2);
    assert_eq!(parse_output(&mut args), Ok(Output::Out));
    assert!(args.remaining().is_empty());
}

#[test]
fn args_whole_pipeline() {
    let (input, ops, output) = parse_args(stream("of [ a b ] upper to file out.txt crlf")).unwrap();
    assert_eq!(input, Input::Of { values: vec!["a".to_string(), "b".to_string()] });
    assert_eq!(ops.len(), 1);
    assert_eq!(output, Output::File { file: "out.txt".to_string(), append: false, crlf: Some(true) });
    assert_eq!(
        parse_args(stream("in upper extra")).err(),
        Some(RpErr::UnknownArgs { args: vec!["extra".to_string()] })
    );
    assert_eq!(parse_args(stream("")).map(|(i, o, _)| (i, o.len())), Ok((Input::StdIn, 0)));
    assert_eq!(
        parse_args(stream("file [ a.txt")).err(),
        Some(RpErr::UnclosingMultiArg { cmd: "file".to_string(), arg: "files".to_string() })
    );
}
