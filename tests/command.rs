use rp::command::{parse, parse_cond, parse_op, parse_to_clip, parse_to_file};
use rp::condition::{Condition, Select};
use rp::op::{CaseArg, TakeDropMode};
use rp::pipeline::{Input, Op, Output, PeekArg, SortBy};

fn op(input: &str) -> (String, Op) {
    parse_op(input).unwrap()
}

fn is_sort(input: &str, by: SortBy, d: bool) -> bool {
    match op(input) {
        (rest, Op::Sort { sort_by, desc }) => rest.is_empty() && sort_by == by && desc == d,
        _ => false,
    }
}

fn is_replace(input: &str, f: &str, t: &str, c: Option<usize>, n: bool) -> bool {
    match op(input) {
        (rest, Op::Replace { from, to, count, nocase }) => {
            rest.is_empty() && from == f && to == t && count == c && nocase == n
        }
        _ => false,
    }
}

fn len_range(input: &str, lo: Option<usize>, hi: Option<usize>, not: bool) -> bool {
    match parse_cond(input) {
        Ok((rest, Condition::Yes(Select::TextLenRange { min, max }))) => rest.is_empty() && !not && min == lo && max == hi,
        Ok((rest, Condition::No(Select::TextLenRange { min, max }))) => rest.is_empty() && not && min == lo && max == hi,
        _ => false,
    }
}

fn num_range(input: &str, lo: Option<i64>, hi: Option<i64>, not: bool) -> bool {
    match parse_cond(input) {
        Ok((rest, Condition::Yes(Select::NumRange { min, max }))) => rest.is_empty() && !not && min == lo && max == hi,
        Ok((rest, Condition::No(Select::NumRange { min, max }))) => rest.is_empty() && not && min == lo && max == hi,
        _ => false,
    }
}

#[test]
fn test_parse_to_file() {
    assert_eq!(
        parse_to_file("to file out.txt "),
        Ok((String::new(), Output::File { file: "out.txt".to_string(), append: false, crlf: None }))
    );
    assert_eq!(
        parse_to_file("to file out.txt append "),
        Ok((String::new(), Output::File { file: "out.txt".to_string(), append: true, crlf: None }))
    );
    assert_eq!(
        parse_to_file("to file out.txt append crlf "),
        Ok((String::new(), Output::File { file: "out.txt".to_string(), append: true, crlf: Some(true) }))
    );
    assert_eq!(
        parse_to_file("to file out.txt crlf "),
        Ok((String::new(), Output::File { file: "out.txt".to_string(), append: false, crlf: Some(true) }))
    );
    assert_eq!(
        parse_to_file(r#"to file "out .txt" "#),
        Ok((String::new(), Output::File { file: "out .txt".to_string(), append: false, crlf: None }))
    );
    assert!(parse_to_file("to").is_err());
    assert!(parse_to_file("to file ").is_err());
    assert!(parse_to_file("to file [").is_err());
}

#[test]
fn test_parse_to_clip() {
    assert_eq!(parse_to_clip("to clip "), Ok((String::new(), Output::Clip { crlf: None })));
    assert_eq!(parse_to_clip("to  clip  "), Ok((String::new(), Output::Clip { crlf: None })));
    assert!(parse_to_clip("to ").is_err());
}

#[test]
fn op_test_parse_upper() {
    assert!(matches!(op(":upper "), (rest, Op::Case(CaseArg::Upper)) if rest.is_empty()));
}

#[test]
fn op_test_parse_lower() {
    assert!(matches!(op(":lower "), (rest, Op::Case(CaseArg::Lower)) if rest.is_empty()));
}

#[test]
fn op_test_parse_case() {
    assert!(matches!(op(":case "), (rest, Op::Case(CaseArg::Switch)) if rest.is_empty()));
}

#[test]
fn op_test_parse_replace() {
    assert!(is_replace(r#":replace abc "" "#, "abc", "", None, false));
    assert!(is_replace(":replace abc 123 ", "abc", "123", None, false));
    assert!(is_replace(":replace abc 123 5 ", "abc", "123", Some(5), false));
    assert!(is_replace(":replace abc 123 5 nocase ", "abc", "123", Some(5), true));
    assert!(is_replace(r#":replace abc "" 5 nocase "#, "abc", "", Some(5), true));
    assert!(is_replace(r#":replace abc "" nocase "#, "abc", "", None, true));
    assert!(is_replace(r#":replace abc '' nocase "#, "abc", "", None, true));
    assert!(is_replace(r#":replace abc def nocase "#, "abc", "def", None, true));
}

#[test]
fn op_test_parse_uniq() {
    assert!(matches!(op(":uniq "), (rest, Op::Uniq { nocase: false }) if rest.is_empty()));
    assert!(matches!(op(":uniq nocase "), (rest, Op::Uniq { nocase: true }) if rest.is_empty()));
}

#[test]
fn test_parse_sort() {
    assert!(is_sort(":sort ", SortBy::Text(false), false));
    assert!(is_sort(":sort desc ", SortBy::Text(false), true));
    assert!(is_sort(":sort nocase ", SortBy::Text(true), false));
    assert!(is_sort(":sort nocase desc ", SortBy::Text(true), true));
    assert!(is_sort(":sort num ", SortBy::Num(i64::MAX), false));
    assert!(is_sort(":sort num desc ", SortBy::Num(i64::MAX), true));
    assert!(is_sort(":sort num 10 ", SortBy::Num(10), false));
    assert!(is_sort(":sort num 10 desc ", SortBy::Num(10), true));
    assert!(is_sort(":sort num -10 ", SortBy::Num(-10), false));
    assert!(is_sort(":sort num -10 desc ", SortBy::Num(-10), true));
    assert!(is_sort(":sort random ", SortBy::Random, false));
    assert!(matches!(op(":sort random desc "), (rest, Op::Sort { sort_by: SortBy::Random, desc: false }) if rest == "desc "));
}

#[test]
fn test_parse_text_len_range() {
    assert!(len_range("len 1,3 ", Some(1), Some(3), false));
    assert!(len_range("len ,3 ", None, Some(3), false));
    assert!(len_range("len 1, ", Some(1), None, false));
    assert!(len_range("len !1,3 ", Some(1), Some(3), true));
    assert!(len_range("len !,3 ", None, Some(3), true));
    assert!(len_range("len !1, ", Some(1), None, true));
    assert!(parse_cond("len !, ").is_err());
    assert!(parse_cond("len , ").is_err());
    assert!(parse_cond("len 1.2,3.0 ").is_err());
}

#[test]
fn test_parse_cond_text_len_range() {
    assert!(len_range("len 1,3 ", Some(1), Some(3), false));
    assert!(len_range("len ,3 ", None, Some(3), false));
    assert!(len_range("len 1, ", Some(1), None, false));
    assert!(len_range("len !1,3 ", Some(1), Some(3), true));
    assert!(len_range("len !,3 ", None, Some(3), true));
    assert!(len_range("len !1, ", Some(1), None, true));
    assert!(parse_cond("len !, ").is_err());
    assert!(parse_cond("len , ").is_err());
    assert!(parse_cond("len 1.2,3.0 ").is_err());
}

#[test]
fn test_parse_cond_text_len_spec() {
    assert!(matches!(parse_cond("len =3 "), Ok((r, Condition::Yes(Select::TextLenSpec { spec: 3 }))) if r.is_empty()));
    assert!(matches!(parse_cond("len !=3 "), Ok((r, Condition::No(Select::TextLenSpec { spec: 3 }))) if r.is_empty()));
}

#[test]
fn test_parse_integer_range() {
    assert!(num_range("num 1,3 ", Some(1), Some(3), false));
    assert!(num_range("num ,3 ", None, Some(3), false));
    assert!(num_range("num 1, ", Some(1), None, false));
    assert!(num_range("num !1,3 ", Some(1), Some(3), true));
    assert!(num_range("num !,3 ", None, Some(3), true));
    assert!(num_range("num !1, ", Some(1), None, true));
    assert!(parse_cond("num !, ").is_err());
    assert!(parse_cond("num , ").is_err());
}

#[test]
fn test_parse_cond_text_all_case() {
    assert!(matches!(parse_cond("upper "), Ok((r, Condition::Yes(Select::TextAllCase { upper: true }))) if r.is_empty()));
    assert!(matches!(parse_cond("lower "), Ok((r, Condition::Yes(Select::TextAllCase { upper: false }))) if r.is_empty()));
    assert!(parse_cond(" ").is_err());
}

#[test]
fn test_parse_cond_text_empty_or_blank() {
    assert!(matches!(parse_cond("empty "), Ok((r, Condition::Yes(Select::TextEmptyOrBlank { empty: true }))) if r.is_empty()));
    assert!(matches!(parse_cond("blank "), Ok((r, Condition::Yes(Select::TextEmptyOrBlank { empty: false }))) if r.is_empty()));
    assert!(parse_cond(" ").is_err());
}

#[test]
fn test_parse_cond_reg_match() {
    match parse_cond(r"reg '\d{1,3}\.\d{1,3}\.\d{1,3}\.\d{1,3}' ") {
        Ok((rest, cond)) => {
            assert!(rest.is_empty());
            match &cond {
                Condition::Yes(Select::RegMatch { regex }) => {
                    assert_eq!(regex.as_str(), r"\A(?:\d{1,3}\.\d{1,3}\.\d{1,3}\.\d{1,3})\z")
                }
                _ => panic!("expected a whole-record match"),
            }
            assert!(cond.test("192.168.0.1"));
            assert!(!cond.test("192.168.0.1x"));
        }
        _ => panic!("expected a whole-record match"),
    }
}

#[test]
fn integer_qualifier_and_bad_regex() {
    assert!(matches!(parse_cond("num integer "), Ok((r, Condition::Yes(Select::IsInteger))) if r.is_empty()));
    assert!(matches!(parse_cond("num !integer "), Ok((r, Condition::No(Select::IsInteger))) if r.is_empty()));
    assert!(parse_cond("reg [ ").is_err());
}

#[test]
fn take_drop_and_join_commands() {
    assert!(matches!(
        op(":take while len 1,3 "),
        (r, Op::TakeDrop { mode: TakeDropMode::TakeWhile, cond: Condition::Yes(Select::TextLenRange { min: Some(1), max: Some(3) }) }) if r.is_empty()
    ));
    assert!(matches!(op(":drop empty "), (r, Op::TakeDrop { mode: TakeDropMode::Drop, .. }) if r.is_empty()));
    match op(r#":join , "[" "]" 2 "#) {
        (rest, Op::Join { join_info, batch }) => {
            assert!(rest.is_empty());
            assert_eq!((join_info.delimiter.as_str(), join_info.prefix.as_str(), join_info.postfix.as_str()), (",", "[", "]"));
            assert_eq!(batch, Some(2));
        }
        _ => panic!("expected a join"),
    }
    match op(":join :upper ") {
        (rest, Op::Join { join_info, batch }) => {
            assert_eq!(rest, ":upper ");
            assert_eq!(join_info.delimiter, "");
            assert_eq!(batch, None);
        }
        _ => panic!("expected a join"),
    }
}

#[test]
fn whole_command() {
    let (input, ops, output) = parse("gen 0,10,2 :count to clip ").unwrap();
    assert_eq!(input, Input::Gen { start: 0, end: 10, included: false, step: 2 });
    assert_eq!(ops.len(), 1);
    assert!(matches!(ops[0], Op::Count));
    assert_eq!(output, Output::Clip { crlf: None });
    let (input, ops, output) = parse(":upper :uniq ").unwrap();
    assert_eq!(input, Input::StdIn);
    assert_eq!(ops.len(), 2);
    assert_eq!(output, Output::Out);
    assert!(matches!(parse("in :upper extra "), Err(rp::err::RpErr::UnexpectedRemaining { .. })));
}

fn is_peek(input: &str, rest: &str, want: PeekArg) -> bool {
    match op(input) {
        (r, Op::Peek(p)) => r == rest && p == want,
        _ => false,
    }
}

#[test]
fn op_test_parse_peek() {
    assert!(is_peek(":peek ", "", PeekArg::StdOut));
    assert!(is_peek(":peek :abc ", ":abc ", PeekArg::StdOut));
    assert!(is_peek(":peek out.txt ", "", PeekArg::File { file: "out.txt".to_string(), append: false, crlf: None }));
    assert!(is_peek(":peek out.txt append ", "", PeekArg::File { file: "out.txt".to_string(), append: true, crlf: None }));
    assert!(is_peek(
        ":peek out.txt append crlf ",
        "",
        PeekArg::File { file: "out.txt".to_string(), append: true, crlf: Some(true) }
    ));
    assert!(is_peek(":peek out.txt crlf ", "", PeekArg::File { file: "out.txt".to_string(), append: false, crlf: Some(true) }));
    assert!(is_peek(r#":peek "out .txt" "#, "", PeekArg::File { file: "out .txt".to_string(), append: false, crlf: None }));
    assert!(is_peek(":peek :replace crlf ", ":replace crlf ", PeekArg::StdOut));
}

fn run(command: &str) -> Vec<String> {
    let (input, ops, _) = parse(command).unwrap();
    let mut records = match input {
        Input::Of { values } => values,
        other => panic!("unexpected input {other:?}"),
    };
    for op in ops {
        records = op.wrap(records, &[]);
    }
    records
}

#[test]
fn trim_commands() {
    assert_eq!(run("of [ xxaxx ] :trim x "), vec!["xax"]);
    assert_eq!(run("of [ xxaxx ] :ltrim x "), vec!["xaxx"]);
    assert_eq!(run("of [ xxaxx ] :trimc x "), vec!["a"]);
    assert_eq!(run("of [ XxaXx ] :ltrimc x nocase "), vec!["aXx"]);
    assert_eq!(run(r"of [ 12a34 ] :rtrimr \d+ "), vec!["12a"]);
    assert_eq!(run(r#"of [ "  a  " ] :trim "#), vec!["a"]);
    assert!(parse("of a :trimr ( ").is_err());
}

#[test]
fn reg_limit_skip_slice_sum_commands() {
    assert_eq!(run(r"of [ a1b22c333 ] :reg \d+ 2 "), vec!["122"]);
    assert_eq!(run("of [ a b c d e ] :limit 2 "), vec!["a", "b"]);
    assert_eq!(run("of [ a b c d e ] :limit 0 "), Vec::<String>::new());
    assert_eq!(run("of [ a b c d e ] :skip 3 "), vec!["d", "e"]);
    assert_eq!(run("of [ a b c d e ] :slice 1,2 4,4 "), vec!["b", "c", "e"]);
    assert_eq!(run("of [ a b c ] :slice "), Vec::<String>::new());
    assert_eq!(run(r#"of [ 1 2 x 3 ] :sum "Total: {v}" "#), vec!["Total: 6"]);
    assert_eq!(run("of [ 1 2 ] :sum :count "), vec!["1"]);
}

#[test]
fn whole_pipeline_runs() {
    assert_eq!(run("of [ b a B a ] :uniq nocase :sort "), vec!["a", "b"]);
    assert_eq!(run("of [ 1 2 3 4 5 ] :join , '' '' 2 "), vec!["1,2", "3,4", "5"]);
    assert_eq!(run("of [ 3 x 1 ] :sort num "), vec!["1", "3", "x"]);
    assert_eq!(run("of [ abc ABC ] :replace AbC 1234 nocase "), vec!["1234", "1234"]);
    assert_eq!(run("of [ 1 22 333 ] :drop while len ,2 "), vec!["333"]);
}

#[test]
fn numeric_condition_on_text_that_is_no_number() {
    let (_, plain) = parse_cond("num 1,5 ").unwrap();
    let (_, negated) = parse_cond("num !1,5 ").unwrap();
    assert!(!plain.test("abc"));
    assert!(!negated.test("abc"));
    assert!(plain.test("3"));
    assert!(negated.test("9"));
}

#[test]
fn parse_errors_by_kind() {
    assert!(matches!(parse("file [ ] "), Err(rp::err::RpErr::ParseInputTokenErr(_))));
    assert!(matches!(parse("of a :take reg ( "), Err(rp::err::RpErr::ParseRegexErr { .. })));
    assert!(matches!(parse_op(":reg ( "), Err(rp::err::RpErr::ParseRegexErr { .. })));
    assert!(matches!(parse_op(":nothing "), Err(rp::err::RpErr::ParseOpTokenErr(_))));
    assert!(matches!(parse("of a to file x.txt more "), Err(rp::err::RpErr::UnexpectedRemaining { remaining, .. }) if remaining == "more "));
}
