use rp::condition::Select;
use rp::config::Config;
use rp::gen::range_to_iter;
use rp::op::{CaseArg, TakeDropMode};
use rp::pipeline::Op;
use rp::stream::Stage;

fn feed(stage: &mut Stage, records: &[&str]) -> Vec<String> {
    let mut out = Vec::new();
    for r in records {
        out.extend(stage.push(r.to_string()));
    }
    out
}

#[test]
fn limit_ends_an_endless_run() {
    let mut stage = Stage::new(Op::Slice { ranges: vec![(Some(0), Some(2))] }, &[]);
    let mut it = range_to_iter(0, i64::MAX, false, 1).unwrap();
    let mut out = Vec::new();
    while !stage.exhausted() {
        let v = it.next().unwrap();
        out.extend(stage.push(v.to_string()));
    }
    assert_eq!(out, vec!["0", "1", "2"]);
    assert_eq!(stage.count(), 3);
}

#[test]
fn take_while_stops_at_first_failure() {
    let cond = Select::new_text_len_range(None, Some(1)).yes();
    let mut stage = Stage::new(Op::TakeDrop { mode: TakeDropMode::TakeWhile, cond }, &[]);
    assert_eq!(feed(&mut stage, &["a", "b"]), vec!["a", "b"]);
    assert!(!stage.exhausted());
    assert_eq!(feed(&mut stage, &["cc", "d"]), Vec::<String>::new());
    assert!(stage.exhausted());
}

#[test]
fn drop_while_then_everything() {
    let cond = Select::new_text_len_range(None, Some(1)).yes();
    let mut stage = Stage::new(Op::TakeDrop { mode: TakeDropMode::DropWhile, cond }, &[]);
    assert_eq!(feed(&mut stage, &["a", "bb", "c"]), vec!["bb", "c"]);
}

#[test]
fn uniq_streams_with_global_nocase() {
    let mut stage = Stage::new(Op::Uniq { nocase: false }, &[Config::Nocase]);
    assert_eq!(feed(&mut stage, &["a", "A", "b", "a", "B"]), vec!["a", "b"]);
}

#[test]
fn map_steps_stream() {
    let mut stage = Stage::new(Op::Case(CaseArg::Upper), &[]);
    assert_eq!(feed(&mut stage, &["ab", "c"]), vec!["AB", "C"]);
    let mut stage = Stage::new(Op::Slice { ranges: vec![(Some(1), Some(2)), (Some(4), Some(4))] }, &[]);
    assert_eq!(feed(&mut stage, &["a", "b", "c", "d", "e"]), vec!["b", "c", "e"]);
    assert!(stage.exhausted());
}
