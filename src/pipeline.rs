use vstd::prelude::*;

use crate::condition::{holds, Condition};
use crate::config::{has_nocase, is_nocase, Config};
use crate::num::int_text;
use crate::op::{
    case_spec,
    change_case,
    chunk_joined,
    count,
    first_of_key,
    in_ranges,
    join_all,
    join_chunks,
    keep_where,
    placeholder,
    slice,
    sum,
    sum_of,
    take_drop,
    texts,
    uniq,
    wrapped,
    CaseArg,
    JoinInfo,
    TakeDropMode,
};
use crate::reg::{concat_first, limit_of, RegArg};
use crate::pattern::regex_found;
use crate::replace::{replace_with_count_and_nocase, replaced};
use crate::sort::{
    arranged,
    is_perm,
    num_keys,
    sort_num,
    sort_random,
    sort_text,
    stably_sorted,
    text_keys,
    KeysView,
};
use crate::trim::{trim_spec, with_nocase, TrimArg};

verus! {

/// Where the records come from.
#[derive(Debug, PartialEq, Eq)]
pub enum Input {
    StdIn,
    File { files: Vec<String> },
    Clip,
    Of { values: Vec<String> },
    Gen { start: i64, end: i64, included: bool, step: i64 },
    Repeat { value: String, count: Option<usize> },
}

/// Where the records go.
#[derive(Debug, PartialEq, Eq)]
pub enum Output {
    Out,
    File { file: String, append: bool, crlf: Option<bool> },
    Clip { crlf: Option<bool> },
}

impl Output {
    pub fn new_std_out() -> (r: Output)
        ensures
            r == Output::Out,
    {
        Output::Out
    }

    pub fn new_file(file: String, append: bool, crlf: Option<bool>) -> (r: Output)
        ensures
            r == (Output::File { file, append, crlf }),
    {
        Output::File { file, append, crlf }
    }

    pub fn new_clip(crlf: Option<bool>) -> (r: Output)
        ensures
            r == (Output::Clip { crlf }),
    {
        Output::Clip { crlf }
    }
}

/// Where `:peek` shows the records.
#[derive(Debug, PartialEq, Eq)]
pub enum PeekArg {
    StdOut,
    File { file: String, append: bool, crlf: Option<bool> },
}

/// The key a sort orders by.
#[derive(Debug, Clone, Copy, PartialEq, Eq)]
pub enum SortBy {
    /// The integer value, with this default for records that read as none.
    Num(i64),
    /// The text, ignoring ASCII case when `true`.
    Text(bool),
    Random,
}

/// One step of the pipeline.
pub enum Op {
    Peek(PeekArg),
    Case(CaseArg),
    Replace { from: String, to: String, count: Option<usize>, nocase: bool },
    Trim(TrimArg),
    Reg(RegArg),
    Slice { ranges: Vec<(Option<usize>, Option<usize>)> },
    Uniq { nocase: bool },
    Sum { fmt: Option<String> },
    Join { join_info: JoinInfo, batch: Option<usize> },
    TakeDrop { mode: TakeDropMode, cond: Condition },
    Count,
    Sort { sort_by: SortBy, desc: bool },
}

/// A step that can run: a trim that was built by its constructors and a batch that is positive.
pub open spec fn op_wf(op: &Op) -> bool {
    match op {
        Op::Trim(t) => t.wf(),
        Op::Join { batch, .. } => batch != Some(0usize),
        _ => true,
    }
}

/// Whether `r` is what the step `op` makes of the records `s`.
pub open spec fn op_result(op: &Op, configs: Seq<Config>, s: Seq<Seq<char>>, r: Seq<Seq<char>>) -> bool {
    match op {
        Op::Peek(_) => r == s,
        Op::Case(mode) => r == s.map_values(|t: Seq<char>| case_spec(*mode, t)),
        Op::Replace { from, to, count, nocase } => r == s.map_values(
            |t: Seq<char>| replaced(t, from@, to@, *count, *nocase || has_nocase(configs)),
        ),
        Op::Trim(arg) => r == s.map_values(
            |t: Seq<char>| trim_spec(arg.position(), with_nocase(arg.kind(), has_nocase(configs)), t),
        ),
        Op::Reg(arg) => r == s.map_values(
            |t: Seq<char>|
                concat_first(
                    regex_found(arg.pattern(), t),
                    limit_of(arg.limit(), regex_found(arg.pattern(), t).len()),
                ),
        ),
        Op::Slice { ranges } => r == keep_where(s, |i: int| in_ranges(i, ranges@), s.len() as int),
        Op::Uniq { nocase } => r == keep_where(
            s,
            |i: int| first_of_key(s, i, *nocase || has_nocase(configs)),
            s.len() as int,
        ),
        Op::Sum { fmt } => r == seq![
            match fmt {
                None => int_text(sum_of(s)),
                Some(f) => replaced(f@, placeholder(), int_text(sum_of(s)), None, false),
            },
        ],
        Op::Join { join_info, batch } => match batch {
            None => r == seq![wrapped(*join_info, s)],
            Some(b) => r == chunk_joined(*join_info, s, *b as nat),
        },
        Op::TakeDrop { mode, cond } => match mode {
            TakeDropMode::Take => r == keep_where(s, |i: int| holds(cond, s[i]), s.len() as int),
            TakeDropMode::Drop => r == keep_where(s, |i: int| !holds(cond, s[i]), s.len() as int),
            TakeDropMode::TakeWhile => {
                &&& r.len() <= s.len()
                &&& r == s.subrange(0, r.len() as int)
                &&& forall|i: int| 0 <= i < r.len() ==> holds(cond, #[trigger] s[i])
                &&& r.len() < s.len() ==> !holds(cond, s[r.len() as int])
            },
            TakeDropMode::DropWhile => {
                let p = s.len() - r.len();
                &&& r.len() <= s.len()
                &&& r == s.subrange(p, s.len() as int)
                &&& forall|i: int| 0 <= i < p ==> holds(cond, #[trigger] s[i])
                &&& p < s.len() ==> !holds(cond, s[p])
            },
        },
        Op::Count => r == seq![int_text(s.len() as int)],
        Op::Sort { sort_by, desc } => match sort_by {
            SortBy::Num(d) => exists|p: Seq<int>|
                is_perm(p, s.len()) && stably_sorted(KeysView::Num(num_keys(s, *d)), p, *desc)
                    && arranged(r, s, p),
            SortBy::Text(nc) => exists|p: Seq<int>|
                is_perm(p, s.len()) && stably_sorted(
                    KeysView::Text(text_keys(s, *nc || has_nocase(configs))),
                    p,
                    *desc,
                ) && arranged(r, s, p),
            SortBy::Random => exists|p: Seq<int>| is_perm(p, s.len()) && arranged(r, s, p),
        },
    }
}

impl Op {
    pub fn new_replace(from: String, to: String, count: Option<usize>, nocase: bool) -> (r: Op)
        ensures
            r == (Op::Replace { from, to, count, nocase }),
    {
        Op::Replace { from, to, count, nocase }
    }

    pub fn new_join(join_info: JoinInfo, batch: Option<usize>) -> (r: Op)
        ensures
            r == (Op::Join { join_info, batch }),
    {
        Op::Join { join_info, batch }
    }

    pub fn new_take_drop(mode: TakeDropMode, cond: Condition) -> (r: Op)
        ensures
            r == (Op::TakeDrop { mode, cond }),
    {
        Op::TakeDrop { mode, cond }
    }

    pub fn new_sort(sort_by: SortBy, desc: bool) -> (r: Op)
        ensures
            r == (Op::Sort { sort_by, desc }),
    {
        Op::Sort { sort_by, desc }
    }

    /// Runs this step over the records. `:peek` passes them on unchanged; showing
    /// them is left to the caller.
    pub fn wrap(self, records: Vec<String>, configs: &[Config]) -> (r: Vec<String>)
        requires
            op_wf(&self),
        ensures
            op_result(&self, configs@, texts(records@), texts(r@)),
    {
        let ghost s = texts(records@);
        match self {
            Op::Peek(_) => records,
            Op::Case(mode) => {
                let mut out: Vec<String> = Vec::new();
                let mut i: usize = 0;
                while i < records.len()
                    invariant
                        0 <= i <= records@.len(),
                        s == texts(records@),
                        texts(out@) == s.map_values(|t: Seq<char>| case_spec(mode, t)).take(i as int),
                    decreases records@.len() - i,
                {
                    let item = change_case(mode, records[i].as_str());
                    let ghost prev = texts(out@);
                    out.push(item);
                    assert(texts(out@) =~= prev.push(item@));
                    i += 1;
                    assert(texts(out@) =~= s.map_values(|t: Seq<char>| case_spec(mode, t)).take(i as int));
                }
                assert(texts(out@) =~= s.map_values(|t: Seq<char>| case_spec(mode, t)));
                out
            },
            Op::Replace { from, to, count, nocase } => {
                let nc = is_nocase(nocase, configs);
                let ghost f = |t: Seq<char>| replaced(t, from@, to@, count, nc);
                let mut out: Vec<String> = Vec::new();
                let mut i: usize = 0;
                while i < records.len()
                    invariant
                        0 <= i <= records@.len(),
                        s == texts(records@),
                        f == (|t: Seq<char>| replaced(t, from@, to@, count, nc)),
                        texts(out@) == s.map_values(f).take(i as int),
                    decreases records@.len() - i,
                {
                    let item = replace_with_count_and_nocase(records[i].as_str(), from.as_str(), to.as_str(), count, nc);
                    let ghost prev = texts(out@);
                    out.push(item);
                    assert(texts(out@) =~= prev.push(item@));
                    i += 1;
                    assert(texts(out@) =~= s.map_values(f).take(i as int));
                }
                assert(texts(out@) =~= s.map_values(f));
                out
            },
            Op::Trim(arg) => {
                let nc = is_nocase(false, configs);
                let ghost f = |t: Seq<char>| trim_spec(arg.position(), with_nocase(arg.kind(), nc), t);
                let mut out: Vec<String> = Vec::new();
                let mut i: usize = 0;
                while i < records.len()
                    invariant
                        0 <= i <= records@.len(),
                        arg.wf(),
                        s == texts(records@),
                        f == (|t: Seq<char>| trim_spec(arg.position(), with_nocase(arg.kind(), nc), t)),
                        texts(out@) == s.map_values(f).take(i as int),
                    decreases records@.len() - i,
                {
                    let item = arg.trim(records[i].clone(), nc);
                    let ghost prev = texts(out@);
                    out.push(item);
                    assert(texts(out@) =~= prev.push(item@));
                    i += 1;
                    assert(texts(out@) =~= s.map_values(f).take(i as int));
                }
                assert(texts(out@) =~= s.map_values(f));
                out
            },
            Op::Reg(arg) => {
                let ghost f = |t: Seq<char>|
                    concat_first(
                        regex_found(arg.pattern(), t),
                        limit_of(arg.limit(), regex_found(arg.pattern(), t).len()),
                    );
                let mut out: Vec<String> = Vec::new();
                let mut i: usize = 0;
                while i < records.len()
                    invariant
                        0 <= i <= records@.len(),
                        s == texts(records@),
                        f == (|t: Seq<char>|
                            concat_first(
                                regex_found(arg.pattern(), t),
                                limit_of(arg.limit(), regex_found(arg.pattern(), t).len()),
                            )),
                        texts(out@) == s.map_values(f).take(i as int),
                    decreases records@.len() - i,
                {
                    let item = arg.replace(records[i].as_str());
                    let ghost prev = texts(out@);
                    out.push(item);
                    assert(texts(out@) =~= prev.push(item@));
                    i += 1;
                    assert(texts(out@) =~= s.map_values(f).take(i as int));
                }
                assert(texts(out@) =~= s.map_values(f));
                out
            },
            Op::Slice { ranges } => slice(&records, &ranges),
            Op::Uniq { nocase } => {
                let nc = is_nocase(nocase, configs);
                uniq(&records, nc)
            },
            Op::Sum { fmt } => {
                let mut out: Vec<String> = Vec::new();
                out.push(sum(&records, &fmt));
                assert(texts(out@) =~= seq![out@[0]@]);
                out
            },
            Op::Join { join_info, batch } => match batch {
                None => {
                    let mut out: Vec<String> = Vec::new();
                    out.push(join_all(&records, &join_info));
                    assert(texts(out@) =~= seq![out@[0]@]);
                    out
                },
                Some(b) => join_chunks(&records, &join_info, b),
            },
            Op::TakeDrop { mode, cond } => take_drop(&records, mode, &cond),
            Op::Count => {
                let mut out: Vec<String> = Vec::new();
                out.push(count(&records));
                assert(texts(out@) =~= seq![out@[0]@]);
                out
            },
            Op::Sort { sort_by, desc } => match sort_by {
                SortBy::Num(d) => sort_num(&records, d, desc),
                SortBy::Text(nocase) => {
                    let nc = is_nocase(nocase, configs);
                    sort_text(&records, nc, desc)
                },
                SortBy::Random => sort_random(records),
            },
        }
    }
}

} // verus!
