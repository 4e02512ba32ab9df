use rp::pipeline::Op;

fn records(v: Vec<&str>) -> Vec<String> {
    v.into_iter().map(|s| s.to_string()).collect()
}

#[test]
fn test_sum_without_fmt() {
    let input = records(vec!["1", "2", "3"]);
    let output = Op::Sum { fmt: None }.wrap(input, &[]);
    assert_eq!(output, vec!["6"]);
}

#[test]
fn test_sum_with_fmt() {
    let input = records(vec!["1", "2", "3"]);
    let output = Op::Sum { fmt: Some("Result: {v}".to_string()) }.wrap(input, &[]);
    assert_eq!(output, vec!["Result: 6"]);
}

#[test]
fn test_sum_with_custom_fmt() {
    let input = records(vec!["10", "20", "30"]);
    let output = Op::Sum { fmt: Some("Total: {v}".to_string()) }.wrap(input, &[]);
    assert_eq!(output, vec!["Total: 60"]);
}

#[test]
fn test_sum_with_hex_fmt() {
    let input = records(vec!["10", "20", "30"]);
    let output = Op::Sum { fmt: Some("Sum = {v}".to_string()) }.wrap(input, &[]);
    assert_eq!(output, vec!["Sum = 60"]);
}

#[test]
fn sum_counts_unreadable_records_as_zero() {
    let input = records(vec!["1", "abc", "-4", ""]);
    assert_eq!(Op::Sum { fmt: None }.wrap(input, &[]), vec!["-3"]);
    assert_eq!(Op::Sum { fmt: None }.wrap(Vec::new(), &[]), vec!["0"]);
}

#[test]
fn sum_beyond_i64_is_exact() {
    let input = records(vec!["9223372036854775807", "9223372036854775807"]);
    assert_eq!(Op::Sum { fmt: None }.wrap(input, &[]), vec!["18446744073709551614"]);
}

#[test]
fn count_gives_the_number_of_records() {
    assert_eq!(Op::Count.wrap(records(vec!["a", "b", "c"]), &[]), vec!["3"]);
    assert_eq!(Op::Count.wrap(Vec::new(), &[]), vec!["0"]);
}
