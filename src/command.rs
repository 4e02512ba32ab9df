use vstd::prelude::*;

use crate::grammar::{
    arg_at,
    arg_exec,
    char_at,
    char_at_exec,
    count_token,
    count_token_exec,
    keyword,
    space1,
    space1_exec,
    tag_at,
    tag_exec,
};
use crate::condition::{anchored, Condition, Select};
use crate::err::RpErr;
use crate::grammar::{
    input_cmd,
    input_view,
    rest_of,
    cmd_alone,
    cmd_arg_or_args1,
    int_token,
    int_token_exec,
    kw_clip,
    kw_file,
    kw_gen,
    kw_in,
    kw_of,
    kw_repeat,
};
use crate::op::{CaseArg, JoinInfo, TakeDropMode};
use crate::pattern::regex_compiles;
use crate::pipeline::{Input, Op, PeekArg};
use crate::reg::RegArg;
use crate::text::lower_seq;
use crate::trim::{head_anchored, tail_anchored, TrimArg, TrimKind, TrimPos};
use crate::num::{parse_i64_spec, parse_integer};
use crate::pipeline::{Output, SortBy};
use crate::text::chars_of;

verus! {

/// Spaces, then the keyword `kw`: where the keyword ends.
pub open spec fn sp_kw(t: Seq<char>, i: int, kw: Seq<char>) -> Option<int> {
    match space1(t, i) {
        Some(a) => if tag_at(t, a, kw) {
            Some(a + kw.len())
        } else {
            None
        },
        None => None,
    }
}

pub(crate) fn sp_kw_exec(t: &Vec<char>, i: usize, kw: &Vec<char>) -> (r: Option<usize>)
    requires
        i <= t@.len(),
    ensures
        r is Some <==> sp_kw(t@, i as int, kw@) is Some,
        r matches Some(j) ==> sp_kw(t@, i as int, kw@) == Some(j as int) && j <= t@.len(),
{
    let n = t.len();
    match space1_exec(t, i) {
        Some(a) => if tag_exec(t, a, kw) {
            assert(a + kw@.len() <= n);
            Some(a + kw.len())
        } else {
            None
        },
        None => None,
    }
}

pub open spec fn kw_to() -> Seq<char> {
    seq!['t', 'o']
}

pub open spec fn kw_append() -> Seq<char> {
    seq!['a', 'p', 'p', 'e', 'n', 'd']
}

/// `to file <path>[ append][ lf|crlf] `: the path, whether to append, the line ending, the end.
pub open spec fn to_file(t: Seq<char>, i: int) -> Option<(Seq<char>, bool, Option<bool>, int)> {
    if !tag_at(t, i, kw_to()) {
        None
    } else {
        match sp_kw(t, i + 2, seq!['f', 'i', 'l', 'e']) {
            None => None,
            Some(a) => match space1(t, a) {
                None => None,
                Some(b) => match arg_at(t, b) {
                    None => None,
                    Some((f, c)) => {
                        let (app, d) = match sp_kw(t, c, kw_append()) {
                            Some(d) => (true, d),
                            None => (false, c),
                        };
                        let (crlf, e) = match sp_kw(t, d, seq!['l', 'f']) {
                            Some(e) => (Some(false), e),
                            None => match sp_kw(t, d, seq!['c', 'r', 'l', 'f']) {
                                Some(e) => (Some(true), e),
                                None => (None, d),
                            },
                        };
                        match space1(t, e) {
                            Some(g) => Some((f, app, crlf, g)),
                            None => None,
                        }
                    },
                },
            },
        }
    }
}

/// `to clip `: where it ends.
pub open spec fn to_clip(t: Seq<char>, i: int) -> Option<int> {
    if !tag_at(t, i, kw_to()) {
        None
    } else {
        match sp_kw(t, i + 2, seq!['c', 'l', 'i', 'p']) {
            None => None,
            Some(a) => space1(t, a),
        }
    }
}

fn to_file_exec(t: &Vec<char>, i: usize) -> (r: Option<(String, bool, Option<bool>, usize)>)
    requires
        i <= t@.len(),
    ensures
        r is Some <==> to_file(t@, i as int) is Some,
        r matches Some((f, a, c, j)) ==> to_file(t@, i as int) == Some((f@, a, c, j as int)) && j <= t@.len(),
{
    let n = t.len();
    let k_to = keyword("to");
    let k_file = keyword("file");
    let k_append = keyword("append");
    let k_lf = keyword("lf");
    let k_crlf = keyword("crlf");
    proof {
        reveal_strlit("to");
        reveal_strlit("file");
        reveal_strlit("append");
        reveal_strlit("lf");
        reveal_strlit("crlf");
        assert(k_to@ =~= kw_to());
        assert(k_file@ =~= seq!['f', 'i', 'l', 'e']);
        assert(k_append@ =~= kw_append());
        assert(k_lf@ =~= seq!['l', 'f']);
        assert(k_crlf@ =~= seq!['c', 'r', 'l', 'f']);
    }
    if !tag_exec(t, i, &k_to) {
        return None;
    }
    assert(i + 2 <= n);
    let a = match sp_kw_exec(t, i + 2, &k_file) {
        Some(a) => a,
        None => {
            return None;
        },
    };
    let b = match space1_exec(t, a) {
        Some(b) => b,
        None => {
            return None;
        },
    };
    let (f, c) = match arg_exec(t, b) {
        Some(x) => x,
        None => {
            return None;
        },
    };
    let (app, d) = match sp_kw_exec(t, c, &k_append) {
        Some(d) => (true, d),
        None => (false, c),
    };
    let (crlf, e) = match sp_kw_exec(t, d, &k_lf) {
        Some(e) => (Some(false), e),
        None => match sp_kw_exec(t, d, &k_crlf) {
            Some(e) => (Some(true), e),
            None => (None, d),
        },
    };
    match space1_exec(t, e) {
        Some(g) => Some((f, app, crlf, g)),
        None => None,
    }
}

fn to_clip_exec(t: &Vec<char>, i: usize) -> (r: Option<usize>)
    requires
        i <= t@.len(),
    ensures
        r is Some <==> to_clip(t@, i as int) is Some,
        r matches Some(j) ==> to_clip(t@, i as int) == Some(j as int) && j <= t@.len(),
{
    let n = t.len();
    let k_to = keyword("to");
    let k_clip = keyword("clip");
    proof {
        reveal_strlit("to");
        reveal_strlit("clip");
        assert(k_to@ =~= kw_to());
        assert(k_clip@ =~= seq!['c', 'l', 'i', 'p']);
    }
    if !tag_exec(t, i, &k_to) {
        return None;
    }
    assert(i + 2 <= n);
    match sp_kw_exec(t, i + 2, &k_clip) {
        Some(a) => space1_exec(t, a),
        None => None,
    }
}

/// The output command at `i`: a file, the clipboard, or standard output when neither is written.
pub fn parse_out_at(t: &Vec<char>, i: usize) -> (r: (Output, usize))
    requires
        i <= t@.len(),
    ensures
        r.1 <= t@.len(),
        match to_file(t@, i as int) {
            Some((f, a, c, j)) => r.0 matches Output::File { file, append, crlf } && file@ == f && append
                == a && crlf == c && r.1 == j,
            None => match to_clip(t@, i as int) {
                Some(j) => r.0 == (Output::Clip { crlf: None }) && r.1 == j,
                None => r.0 == Output::Out && r.1 == i,
            },
        },
{
    match to_file_exec(t, i) {
        Some((file, append, crlf, j)) => (Output::File { file, append, crlf }, j),
        None => match to_clip_exec(t, i) {
            Some(j) => (Output::Clip { crlf: None }, j),
            None => (Output::Out, i),
        },
    }
}

/// `to file <path>[ append][ lf|crlf] `, and the text after it.
pub fn parse_to_file(input: &str) -> (r: Result<(String, Output), String>)
    ensures
        r is Ok <==> to_file(input@, 0) is Some,
        r matches Ok((rest, o)) ==> {
            let (f, a, c, j) = to_file(input@, 0)->Some_0;
            &&& o matches Output::File { file, append, crlf } && file@ == f && append == a && crlf == c
            &&& rest@ == input@.subrange(j, input@.len() as int)
        },
{
    let t = chars_of(input);
    match to_file_exec(&t, 0) {
        Some((file, append, crlf, j)) => Ok((crate::grammar::rest_exec(&t, j), Output::File { file, append, crlf })),
        None => Err(String::from_str("expected `to file <path>`")),
    }
}

/// `to clip `, and the text after it.
pub fn parse_to_clip(input: &str) -> (r: Result<(String, Output), String>)
    ensures
        r is Ok <==> to_clip(input@, 0) is Some,
        r matches Ok((rest, o)) ==> o == (Output::Clip { crlf: None }) && rest@ == input@.subrange(
            to_clip(input@, 0)->Some_0,
            input@.len() as int,
        ),
{
    let t = chars_of(input);
    match to_clip_exec(&t, 0) {
        Some(j) => Ok((crate::grammar::rest_exec(&t, j), Output::Clip { crlf: None })),
        None => Err(String::from_str("expected `to clip`")),
    }
}

/// What a condition in the command language selects, in plain values.
pub enum SelView {
    LenRange(Option<usize>, Option<usize>),
    LenSpec(usize),
    NumRange(Option<i64>, Option<i64>),
    NumSpec(i64),
    IsInteger,
    AllCase(bool),
    Ascii(bool),
    EmptyOrBlank(bool),
    Reg(Seq<char>),
}

/// A pipeline step of the command language, in plain values.
pub enum OpView {
    Peek(Option<(Seq<char>, bool, Option<bool>)>),
    Case(CaseArg),
    Replace(Seq<char>, Seq<char>, Option<usize>, bool),
    Uniq(bool),
    Join(Seq<char>, Seq<char>, Seq<char>, Option<usize>),
    TrimBlank(TrimPos),
    TrimStr(TrimPos, Seq<char>, bool),
    TrimChars(TrimPos, Set<char>, bool),
    TrimRegex(TrimPos, Seq<char>),
    Reg(Seq<char>, Option<usize>),
    Slice(Seq<(Option<usize>, Option<usize>)>),
    Sum(Option<Seq<char>>),
    Sort(SortBy, bool),
    TakeDrop(TakeDropMode, bool, SelView),
    Count,
}

pub open spec fn sel_view(s: &Select) -> SelView {
    match s {
        Select::TextLenRange { min, max } => SelView::LenRange(*min, *max),
        Select::TextLenSpec { spec } => SelView::LenSpec(*spec),
        Select::NumRange { min, max } => SelView::NumRange(*min, *max),
        Select::NumSpec { spec } => SelView::NumSpec(*spec),
        Select::IsInteger => SelView::IsInteger,
        Select::TextAllCase { upper } => SelView::AllCase(*upper),
        Select::Ascii { ascii } => SelView::Ascii(*ascii),
        Select::TextEmptyOrBlank { empty } => SelView::EmptyOrBlank(*empty),
        Select::RegMatch { regex } => SelView::Reg(regex.pattern()),
    }
}

pub open spec fn op_view(op: &Op) -> OpView {
    match op {
        Op::Peek(PeekArg::StdOut) => OpView::Peek(None),
        Op::Peek(PeekArg::File { file, append, crlf }) => OpView::Peek(Some((file@, *append, *crlf))),
        Op::Case(c) => OpView::Case(*c),
        Op::Replace { from, to, count, nocase } => OpView::Replace(from@, to@, *count, *nocase),
        Op::Uniq { nocase } => OpView::Uniq(*nocase),
        Op::Trim(arg) => match arg.kind() {
            TrimKind::Blank => OpView::TrimBlank(arg.position()),
            TrimKind::Str(p, nc) => OpView::TrimStr(arg.position(), p, nc),
            TrimKind::Chars(v, nc) => OpView::TrimChars(arg.position(), v.to_set(), nc),
            TrimKind::Regex(p) => OpView::TrimRegex(arg.position(), p),
        },
        Op::Reg(arg) => OpView::Reg(arg.pattern(), arg.limit()),
        Op::Slice { ranges } => OpView::Slice(ranges@),
        Op::Sum { fmt } => OpView::Sum(
            match fmt {
                Some(f) => Some(f@),
                None => None,
            },
        ),
        Op::Join { join_info, batch } => OpView::Join(
            join_info.delimiter@,
            join_info.prefix@,
            join_info.postfix@,
            *batch,
        ),
        Op::Sort { sort_by, desc } => OpView::Sort(*sort_by, *desc),
        Op::TakeDrop { mode, cond } => match cond {
            Condition::Yes(s) => OpView::TakeDrop(*mode, false, sel_view(s)),
            Condition::No(s) => OpView::TakeDrop(*mode, true, sel_view(s)),
        },
        Op::Count => OpView::Count,
    }
}

/// An optional `!` at `i`: whether it is there, and where the rest starts.
pub open spec fn bang(t: Seq<char>, i: int) -> (bool, int) {
    if char_at(t, i, '!') {
        (true, i + 1)
    } else {
        (false, i)
    }
}

/// A bound of a condition ends at a space or at the end of the text.
pub open spec fn bound_ends(t: Seq<char>, e: int) -> bool {
    space1(t, e) is Some || e == t.len()
}

/// `len [!][<min>],[<max>]`, at least one bound given.
pub open spec fn len_range(t: Seq<char>, i: int) -> Option<(bool, SelView, int)> {
    if !tag_at(t, i, seq!['l', 'e', 'n']) {
        None
    } else {
        match space1(t, i + 3) {
            None => None,
            Some(a) => {
                let (neg, b) = bang(t, a);
                let (min, c) = match count_token(t, b) {
                    Some((v, c)) => (Some(v), c),
                    None => (None, b),
                };
                if !char_at(t, c, ',') {
                    None
                } else {
                    let (max, e) = match count_token(t, c + 1) {
                        Some((v, e)) => (Some(v), e),
                        None => (None, c + 1),
                    };
                    if bound_ends(t, e) && (min is Some || max is Some) {
                        Some((neg, SelView::LenRange(min, max), e))
                    } else {
                        None
                    }
                }
            },
        }
    }
}

/// `len [!]=<n>`.
pub open spec fn len_spec(t: Seq<char>, i: int) -> Option<(bool, SelView, int)> {
    if !tag_at(t, i, seq!['l', 'e', 'n']) {
        None
    } else {
        match space1(t, i + 3) {
            None => None,
            Some(a) => {
                let (neg, b) = bang(t, a);
                if !char_at(t, b, '=') {
                    None
                } else {
                    match count_token(t, b + 1) {
                        Some((v, e)) => if bound_ends(t, e) {
                            Some((neg, SelView::LenSpec(v), e))
                        } else {
                            None
                        },
                        None => None,
                    }
                }
            },
        }
    }
}

/// `num [!][<min>],[<max>]` over integers, at least one bound given.
pub open spec fn num_range(t: Seq<char>, i: int) -> Option<(bool, SelView, int)> {
    if !tag_at(t, i, seq!['n', 'u', 'm']) {
        None
    } else {
        match space1(t, i + 3) {
            None => None,
            Some(a) => {
                let (neg, b) = bang(t, a);
                let (min, c) = match int_token(t, b) {
                    Some((v, c)) => (Some(v), c),
                    None => (None, b),
                };
                if !char_at(t, c, ',') {
                    None
                } else {
                    let (max, e) = match int_token(t, c + 1) {
                        Some((v, e)) => (Some(v), e),
                        None => (None, c + 1),
                    };
                    if bound_ends(t, e) && (min is Some || max is Some) {
                        Some((neg, SelView::NumRange(min, max), e))
                    } else {
                        None
                    }
                }
            },
        }
    }
}

/// `num [!]=<n>` over integers.
pub open spec fn num_spec(t: Seq<char>, i: int) -> Option<(bool, SelView, int)> {
    if !tag_at(t, i, seq!['n', 'u', 'm']) {
        None
    } else {
        match space1(t, i + 3) {
            None => None,
            Some(a) => {
                let (neg, b) = bang(t, a);
                if !char_at(t, b, '=') {
                    None
                } else {
                    match int_token(t, b + 1) {
                        Some((v, e)) => if bound_ends(t, e) {
                            Some((neg, SelView::NumSpec(v), e))
                        } else {
                            None
                        },
                        None => None,
                    }
                }
            },
        }
    }
}

/// `num [!]integer`.
pub open spec fn num_integer(t: Seq<char>, i: int) -> Option<(bool, SelView, int)> {
    if !tag_at(t, i, seq!['n', 'u', 'm']) {
        None
    } else {
        match space1(t, i + 3) {
            None => None,
            Some(a) => {
                let (neg, b) = bang(t, a);
                if tag_at(t, b, seq!['i', 'n', 't', 'e', 'g', 'e', 'r']) {
                    Some((neg, SelView::IsInteger, b + 7))
                } else {
                    None
                }
            },
        }
    }
}

/// `[!]upper`, `[!]lower`, `[!]empty` or `[!]blank`.
pub open spec fn word_cond(t: Seq<char>, i: int) -> Option<(bool, SelView, int)> {
    let (neg, b) = bang(t, i);
    if tag_at(t, b, seq!['u', 'p', 'p', 'e', 'r']) {
        Some((neg, SelView::AllCase(true), b + 5))
    } else if tag_at(t, b, seq!['l', 'o', 'w', 'e', 'r']) {
        Some((neg, SelView::AllCase(false), b + 5))
    } else if tag_at(t, b, seq!['e', 'm', 'p', 't', 'y']) {
        Some((neg, SelView::EmptyOrBlank(true), b + 5))
    } else if tag_at(t, b, seq!['b', 'l', 'a', 'n', 'k']) {
        Some((neg, SelView::EmptyOrBlank(false), b + 5))
    } else {
        None
    }
}

/// `reg <pattern>`: the pattern as a whole-record match.
pub open spec fn reg_cond(t: Seq<char>, i: int) -> Option<(bool, SelView, int)> {
    if !tag_at(t, i, seq!['r', 'e', 'g']) {
        None
    } else {
        match space1(t, i + 3) {
            None => None,
            Some(a) => match arg_at(t, a) {
                Some((p, e)) => Some((false, SelView::Reg(anchored(p)), e)),
                None => None,
            },
        }
    }
}

/// A condition and the spaces after it: whether it is negated, what it selects, where it ends.
pub open spec fn cond_at(t: Seq<char>, i: int) -> Option<(bool, SelView, int)> {
    let c = if len_range(t, i) is Some {
        len_range(t, i)
    } else if len_spec(t, i) is Some {
        len_spec(t, i)
    } else if num_range(t, i) is Some {
        num_range(t, i)
    } else if num_spec(t, i) is Some {
        num_spec(t, i)
    } else if num_integer(t, i) is Some {
        num_integer(t, i)
    } else if word_cond(t, i) is Some {
        word_cond(t, i)
    } else {
        reg_cond(t, i)
    };
    match c {
        Some((neg, sel, e)) => match space1(t, e) {
            Some(f) => Some((neg, sel, f)),
            None => None,
        },
        None => None,
    }
}

/// A condition as read from the command text, before its expression is compiled.
enum SelToken {
    LenRange(Option<usize>, Option<usize>),
    LenSpec(usize),
    NumRange(Option<i64>, Option<i64>),
    NumSpec(i64),
    IsInteger,
    AllCase(bool),
    EmptyOrBlank(bool),
    Reg(String),
}

spec fn tok_view(t: SelToken) -> SelView {
    match t {
        SelToken::LenRange(a, b) => SelView::LenRange(a, b),
        SelToken::LenSpec(v) => SelView::LenSpec(v),
        SelToken::NumRange(a, b) => SelView::NumRange(a, b),
        SelToken::NumSpec(v) => SelView::NumSpec(v),
        SelToken::IsInteger => SelView::IsInteger,
        SelToken::AllCase(u) => SelView::AllCase(u),
        SelToken::EmptyOrBlank(e) => SelView::EmptyOrBlank(e),
        SelToken::Reg(p) => SelView::Reg(anchored(p@)),
    }
}

fn bang_exec(t: &Vec<char>, i: usize) -> (r: (bool, usize))
    requires
        i <= t@.len(),
    ensures
        r.0 == bang(t@, i as int).0,
        r.1 == bang(t@, i as int).1,
        r.1 <= t@.len(),
{
    let n = t.len();
    if char_at_exec(t, i, '!') {
        assert(i < n);
        (true, i + 1)
    } else {
        (false, i)
    }
}

fn bound_ends_exec(t: &Vec<char>, e: usize) -> (r: bool)
    requires
        e <= t@.len(),
    ensures
        r == bound_ends(t@, e as int),
{
    space1_exec(t, e).is_some() || e == t.len()
}

fn len_or_num_exec(t: &Vec<char>, i: usize, num: bool, spec_form: bool) -> (r: Option<(bool, SelToken, usize)>)
    requires
        i <= t@.len(),
    ensures
        ({
            let sv = if num {
                if spec_form { num_spec(t@, i as int) } else { num_range(t@, i as int) }
            } else {
                if spec_form { len_spec(t@, i as int) } else { len_range(t@, i as int) }
            };
            &&& r is Some <==> sv is Some
            &&& r matches Some((neg, tok, j)) ==> sv == Some((neg, tok_view(tok), j as int)) && j <= t@.len()
        }),
{
    let n = t.len();
    let kw = if num {
        keyword("num")
    } else {
        keyword("len")
    };
    proof {
        reveal_strlit("num");
        reveal_strlit("len");
        if num {
            assert(kw@ =~= seq!['n', 'u', 'm']);
        } else {
            assert(kw@ =~= seq!['l', 'e', 'n']);
        }
    }
    if !tag_exec(t, i, &kw) {
        return None;
    }
    assert(i + 3 <= n);
    let a = match space1_exec(t, i + 3) {
        Some(a) => a,
        None => {
            return None;
        },
    };
    let (neg, b) = bang_exec(t, a);
    if spec_form {
        if !char_at_exec(t, b, '=') {
            return None;
        }
        if num {
            match int_token_exec(t, b + 1) {
                Some((v, e)) => if bound_ends_exec(t, e) {
                    Some((neg, SelToken::NumSpec(v), e))
                } else {
                    None
                },
                None => None,
            }
        } else {
            match count_token_exec(t, b + 1) {
                Some((v, e)) => if bound_ends_exec(t, e) {
                    Some((neg, SelToken::LenSpec(v), e))
                } else {
                    None
                },
                None => None,
            }
        }
    } else if num {
        let (min, c) = match int_token_exec(t, b) {
            Some((v, c)) => (Some(v), c),
            None => (None, b),
        };
        if !char_at_exec(t, c, ',') {
            return None;
        }
        let (max, e) = match int_token_exec(t, c + 1) {
            Some((v, e)) => (Some(v), e),
            None => (None, c + 1),
        };
        if bound_ends_exec(t, e) && (min.is_some() || max.is_some()) {
            Some((neg, SelToken::NumRange(min, max), e))
        } else {
            None
        }
    } else {
        let (min, c) = match count_token_exec(t, b) {
            Some((v, c)) => (Some(v), c),
            None => (None, b),
        };
        if !char_at_exec(t, c, ',') {
            return None;
        }
        let (max, e) = match count_token_exec(t, c + 1) {
            Some((v, e)) => (Some(v), e),
            None => (None, c + 1),
        };
        if bound_ends_exec(t, e) && (min.is_some() || max.is_some()) {
            Some((neg, SelToken::LenRange(min, max), e))
        } else {
            None
        }
    }
}

fn num_integer_exec(t: &Vec<char>, i: usize) -> (r: Option<(bool, SelToken, usize)>)
    requires
        i <= t@.len(),
    ensures
        r is Some <==> num_integer(t@, i as int) is Some,
        r matches Some((neg, tok, j)) ==> num_integer(t@, i as int) == Some((neg, tok_view(tok), j as int))
            && j <= t@.len(),
{
    let n = t.len();
    let kw = keyword("num");
    let k_int = keyword("integer");
    proof {
        reveal_strlit("num");
        reveal_strlit("integer");
        assert(kw@ =~= seq!['n', 'u', 'm']);
        assert(k_int@ =~= seq!['i', 'n', 't', 'e', 'g', 'e', 'r']);
    }
    if !tag_exec(t, i, &kw) {
        return None;
    }
    assert(i + 3 <= n);
    let a = match space1_exec(t, i + 3) {
        Some(a) => a,
        None => {
            return None;
        },
    };
    let (neg, b) = bang_exec(t, a);
    if tag_exec(t, b, &k_int) {
        assert(b + 7 <= n);
        Some((neg, SelToken::IsInteger, b + 7))
    } else {
        None
    }
}

fn word_cond_exec(t: &Vec<char>, i: usize) -> (r: Option<(bool, SelToken, usize)>)
    requires
        i <= t@.len(),
    ensures
        r is Some <==> word_cond(t@, i as int) is Some,
        r matches Some((neg, tok, j)) ==> word_cond(t@, i as int) == Some((neg, tok_view(tok), j as int))
            && j <= t@.len(),
{
    let n = t.len();
    let k_upper = keyword("upper");
    let k_lower = keyword("lower");
    let k_empty = keyword("empty");
    let k_blank = keyword("blank");
    proof {
        reveal_strlit("upper");
        reveal_strlit("lower");
        reveal_strlit("empty");
        reveal_strlit("blank");
        assert(k_upper@ =~= seq!['u', 'p', 'p', 'e', 'r']);
        assert(k_lower@ =~= seq!['l', 'o', 'w', 'e', 'r']);
        assert(k_empty@ =~= seq!['e', 'm', 'p', 't', 'y']);
        assert(k_blank@ =~= seq!['b', 'l', 'a', 'n', 'k']);
    }
    let (neg, b) = bang_exec(t, i);
    if tag_exec(t, b, &k_upper) {
        assert(b + 5 <= n);
        Some((neg, SelToken::AllCase(true), b + 5))
    } else if tag_exec(t, b, &k_lower) {
        assert(b + 5 <= n);
        Some((neg, SelToken::AllCase(false), b + 5))
    } else if tag_exec(t, b, &k_empty) {
        assert(b + 5 <= n);
        Some((neg, SelToken::EmptyOrBlank(true), b + 5))
    } else if tag_exec(t, b, &k_blank) {
        assert(b + 5 <= n);
        Some((neg, SelToken::EmptyOrBlank(false), b + 5))
    } else {
        None
    }
}

fn reg_cond_exec(t: &Vec<char>, i: usize) -> (r: Option<(bool, SelToken, usize)>)
    requires
        i <= t@.len(),
    ensures
        r is Some <==> reg_cond(t@, i as int) is Some,
        r matches Some((neg, tok, j)) ==> reg_cond(t@, i as int) == Some((neg, tok_view(tok), j as int))
            && j <= t@.len(),
{
    let n = t.len();
    let kw = keyword("reg");
    proof {
        reveal_strlit("reg");
        assert(kw@ =~= seq!['r', 'e', 'g']);
    }
    if !tag_exec(t, i, &kw) {
        return None;
    }
    assert(i + 3 <= n);
    let a = match space1_exec(t, i + 3) {
        Some(a) => a,
        None => {
            return None;
        },
    };
    match arg_exec(t, a) {
        Some((p, e)) => Some((false, SelToken::Reg(p), e)),
        None => None,
    }
}

fn cond_token_exec(t: &Vec<char>, i: usize) -> (r: Option<(bool, SelToken, usize)>)
    requires
        i <= t@.len(),
    ensures
        r is Some <==> cond_at(t@, i as int) is Some,
        r matches Some((neg, tok, j)) ==> cond_at(t@, i as int) == Some((neg, tok_view(tok), j as int))
            && j <= t@.len(),
{
    let c = match len_or_num_exec(t, i, false, false) {
        Some(x) => Some(x),
        None => match len_or_num_exec(t, i, false, true) {
            Some(x) => Some(x),
            None => match len_or_num_exec(t, i, true, false) {
                Some(x) => Some(x),
                None => match len_or_num_exec(t, i, true, true) {
                    Some(x) => Some(x),
                    None => match num_integer_exec(t, i) {
                        Some(x) => Some(x),
                        None => match word_cond_exec(t, i) {
                            Some(x) => Some(x),
                            None => reg_cond_exec(t, i),
                        },
                    },
                },
            },
        },
    };
    match c {
        Some((neg, tok, e)) => match space1_exec(t, e) {
            Some(f) => Some((neg, tok, f)),
            None => None,
        },
        None => None,
    }
}

/// The condition at `i`, with its expression compiled; an expression the
/// regex crate rejects is an error.
pub fn parse_cond_at(t: &Vec<char>, i: usize) -> (r: Result<Option<(Condition, usize)>, RpErr>)
    requires
        i <= t@.len(),
    ensures
        r matches Ok(None) <==> cond_at(t@, i as int) is None,
        r matches Ok(Some((c, j))) ==> ({
            let (neg, sv, e) = cond_at(t@, i as int)->Some_0;
            &&& j == e
            &&& j <= t@.len()
            &&& neg ==> (c matches Condition::No(s) && sel_view(&s) == sv)
            &&& !neg ==> (c matches Condition::Yes(s) && sel_view(&s) == sv)
        }),
        r is Err <==> (cond_at(t@, i as int) matches Some((_, SelView::Reg(p), _)) && !regex_compiles(p)),
        r matches Err(e) ==> e is ParseRegexErr,
{
    match cond_token_exec(t, i) {
        None => Ok(None),
        Some((neg, tok, j)) => {
            let sel = match tok {
                SelToken::LenRange(a, b) => Select::TextLenRange { min: a, max: b },
                SelToken::LenSpec(v) => Select::TextLenSpec { spec: v },
                SelToken::NumRange(a, b) => Select::NumRange { min: a, max: b },
                SelToken::NumSpec(v) => Select::NumSpec { spec: v },
                SelToken::IsInteger => Select::IsInteger,
                SelToken::AllCase(u) => Select::TextAllCase { upper: u },
                SelToken::EmptyOrBlank(e) => Select::TextEmptyOrBlank { empty: e },
                SelToken::Reg(p) => match Select::new_reg_match(p.as_str()) {
                    Ok(s) => s,
                    Err(e) => {
                        return Err(e);
                    },
                },
            };
            Ok(Some((Condition::new(sel, neg), j)))
        },
    }
}

/// A condition of `:take` or `:drop`, and the text after it.
pub fn parse_cond(input: &str) -> (r: Result<(String, Condition), RpErr>)
    ensures
        r is Ok <==> cond_at(input@, 0) is Some && !(cond_at(input@, 0) matches Some((_, SelView::Reg(p), _))
            && !regex_compiles(p)),
        r matches Err(e) ==> (e is ParseRegexErr || e is ParseOpTokenErr),
        r matches Ok((rest, c)) ==> ({
            let (neg, sv, e) = cond_at(input@, 0)->Some_0;
            &&& rest@ == input@.subrange(e, input@.len() as int)
            &&& neg ==> (c matches Condition::No(s) && sel_view(&s) == sv)
            &&& !neg ==> (c matches Condition::Yes(s) && sel_view(&s) == sv)
        }),
        cond_at(input@, 0) is None ==> r is Err,
{
    let t = chars_of(input);
    match parse_cond_at(&t, 0) {
        Ok(Some((c, j))) => Ok((crate::grammar::rest_exec(&t, j), c)),
        Ok(None) => Err(RpErr::ParseOpTokenErr(String::from_str("expected a condition"))),
        Err(e) => Err(e),
    }
}

/// A keyword alone, then spaces.
pub open spec fn bare(t: Seq<char>, i: int, kw: Seq<char>) -> Option<int> {
    if tag_at(t, i, kw) {
        space1(t, i + kw.len())
    } else {
        None
    }
}

/// An argument after spaces.
pub open spec fn sp_arg(t: Seq<char>, i: int) -> Option<(Seq<char>, int)> {
    match space1(t, i) {
        Some(a) => arg_at(t, a),
        None => None,
    }
}

/// An argument after spaces that does not start a new command with `:`.
pub open spec fn sp_argx(t: Seq<char>, i: int) -> Option<(Seq<char>, int)> {
    match space1(t, i) {
        Some(a) => if char_at(t, a, ':') {
            None
        } else {
            arg_at(t, a)
        },
        None => None,
    }
}

/// An optional keyword after spaces: whether it is there, and where the rest starts.
pub open spec fn opt_kw(t: Seq<char>, i: int, kw: Seq<char>) -> (bool, int) {
    match sp_kw(t, i, kw) {
        Some(j) => (true, j),
        None => (false, i),
    }
}

pub open spec fn kw_nocase() -> Seq<char> {
    seq!['n', 'o', 'c', 'a', 's', 'e']
}

pub open spec fn kw_desc() -> Seq<char> {
    seq!['d', 'e', 's', 'c']
}

/// `:replace <from> <to>[ <count>][ nocase] `.
pub open spec fn replace_at(t: Seq<char>, i: int) -> Option<(OpView, int)> {
    if !tag_at(t, i, seq![':', 'r', 'e', 'p', 'l', 'a', 'c', 'e']) {
        None
    } else {
        match sp_arg(t, i + 8) {
            None => None,
            Some((from, b)) => match sp_arg(t, b) {
                None => None,
                Some((to, c)) => {
                    let (count, d) = match space1(t, c) {
                        Some(x) => match count_token(t, x) {
                            Some((n, d)) => (Some(n), d),
                            None => (None, c),
                        },
                        None => (None, c),
                    };
                    let (nc, e) = opt_kw(t, d, kw_nocase());
                    match space1(t, e) {
                        Some(f) => Some((OpView::Replace(from, to, count, nc), f)),
                        None => None,
                    }
                },
            },
        }
    }
}

/// `:uniq[ nocase] `.
pub open spec fn uniq_at(t: Seq<char>, i: int) -> Option<(OpView, int)> {
    if !tag_at(t, i, seq![':', 'u', 'n', 'i', 'q']) {
        None
    } else {
        let (nc, a) = opt_kw(t, i + 5, kw_nocase());
        match space1(t, a) {
            Some(b) => Some((OpView::Uniq(nc), b)),
            None => None,
        }
    }
}

/// `:join[ <delimiter>[ <prefix>[ <postfix>[ <batch>]]]] `; what is left out is empty.
pub open spec fn join_at(t: Seq<char>, i: int) -> Option<(OpView, int)> {
    if !tag_at(t, i, seq![':', 'j', 'o', 'i', 'n']) {
        None
    } else {
        let e = Seq::<char>::empty();
        let (v, a) = match sp_argx(t, i + 5) {
            None => (OpView::Join(e, e, e, None), i + 5),
            Some((d, b)) => match sp_argx(t, b) {
                None => (OpView::Join(d, e, e, None), b),
                Some((p, c)) => match sp_argx(t, c) {
                    None => (OpView::Join(d, p, e, None), c),
                    Some((q, f)) => match space1(t, f) {
                        Some(x) => match count_token(t, x) {
                            Some((n, g)) => if n > 0 {
                                (OpView::Join(d, p, q, Some(n)), g)
                            } else {
                                (OpView::Join(d, p, q, None), f)
                            },
                            None => (OpView::Join(d, p, q, None), f),
                        },
                        None => (OpView::Join(d, p, q, None), f),
                    },
                },
            },
        };
        match space1(t, a) {
            Some(b) => Some((v, b)),
            None => None,
        }
    }
}

/// `:sort[ num[ <default>]][ nocase][ desc][ random] ` as the command language orders them.
pub open spec fn sort_at(t: Seq<char>, i: int) -> Option<(OpView, int)> {
    if !tag_at(t, i, seq![':', 's', 'o', 'r', 't']) {
        None
    } else {
        let a = i + 5;
        let (v, e) = match sp_kw(t, a, seq!['n', 'u', 'm']) {
            Some(b) => match sp_arg(t, b) {
                Some((w, d)) if parse_i64_spec(w) is Some => {
                    let (desc, e) = opt_kw(t, d, kw_desc());
                    (OpView::Sort(SortBy::Num(parse_i64_spec(w)->Some_0), desc), e)
                },
                _ => {
                    let (desc, e) = opt_kw(t, b, kw_desc());
                    (OpView::Sort(SortBy::Num(i64::MAX), desc), e)
                },
            },
            None => match sp_kw(t, a, seq!['r', 'a', 'n', 'd', 'o', 'm']) {
                Some(b) => (OpView::Sort(SortBy::Random, false), b),
                None => {
                    let (nc, b) = opt_kw(t, a, kw_nocase());
                    let (desc, c) = opt_kw(t, b, kw_desc());
                    (OpView::Sort(SortBy::Text(nc), desc), c)
                },
            },
        };
        match space1(t, e) {
            Some(f) => Some((v, f)),
            None => None,
        }
    }
}

/// `:take[ while] <condition>` or `:drop[ while] <condition>`.
pub open spec fn take_drop_at(t: Seq<char>, i: int) -> Option<(OpView, int)> {
    let take = tag_at(t, i, seq![':', 't', 'a', 'k', 'e']);
    let drop = tag_at(t, i, seq![':', 'd', 'r', 'o', 'p']);
    if !take && !drop {
        None
    } else {
        match space1(t, i + 5) {
            None => None,
            Some(a) => {
                let (wh, b) = match bare(t, a, seq!['w', 'h', 'i', 'l', 'e']) {
                    Some(b) => (true, b),
                    None => (false, a),
                };
                let mode = if take {
                    if wh { TakeDropMode::TakeWhile } else { TakeDropMode::Take }
                } else {
                    if wh { TakeDropMode::DropWhile } else { TakeDropMode::Drop }
                };
                match cond_at(t, b) {
                    Some((neg, sv, e)) => Some((OpView::TakeDrop(mode, neg, sv), e)),
                    None => None,
                }
            },
        }
    }
}

/// `:peek[ <path>[ append][ lf|crlf]] `: standard output, or a file.
pub open spec fn peek_at(t: Seq<char>, i: int) -> Option<(OpView, int)> {
    if !tag_at(t, i, seq![':', 'p', 'e', 'e', 'k']) {
        None
    } else {
        let a = i + 5;
        let (v, e) = match sp_argx(t, a) {
            Some((f, b)) => {
                let (app, c) = opt_kw(t, b, kw_append());
                let (crlf, d) = match sp_kw(t, c, seq!['l', 'f']) {
                    Some(d) => (Some(false), d),
                    None => match sp_kw(t, c, seq!['c', 'r', 'l', 'f']) {
                        Some(d) => (Some(true), d),
                        None => (None, c),
                    },
                };
                (OpView::Peek(Some((f, app, crlf))), d)
            },
            None => (OpView::Peek(None), a),
        };
        match space1(t, e) {
            Some(f) => Some((v, f)),
            None => None,
        }
    }
}

/// The nine trim commands: the keyword, the end it works on, and 0 for text,
/// 1 for characters, 2 for a regular expression.
pub open spec fn trim_keyword(k: int) -> (Seq<char>, TrimPos, int) {
    if k == 0 {
        (seq![':', 't', 'r', 'i', 'm', 'c'], TrimPos::Both, 1)
    } else if k == 1 {
        (seq![':', 'l', 't', 'r', 'i', 'm', 'c'], TrimPos::Head, 1)
    } else if k == 2 {
        (seq![':', 'r', 't', 'r', 'i', 'm', 'c'], TrimPos::Tail, 1)
    } else if k == 3 {
        (seq![':', 't', 'r', 'i', 'm', 'r'], TrimPos::Both, 2)
    } else if k == 4 {
        (seq![':', 'l', 't', 'r', 'i', 'm', 'r'], TrimPos::Head, 2)
    } else if k == 5 {
        (seq![':', 'r', 't', 'r', 'i', 'm', 'r'], TrimPos::Tail, 2)
    } else if k == 6 {
        (seq![':', 't', 'r', 'i', 'm'], TrimPos::Both, 0)
    } else if k == 7 {
        (seq![':', 'l', 't', 'r', 'i', 'm'], TrimPos::Head, 0)
    } else {
        (seq![':', 'r', 't', 'r', 'i', 'm'], TrimPos::Tail, 0)
    }
}

/// The trim command number `k` at `i`: `<kw>[ <pattern>[ nocase]] ` for text
/// or characters (white space without a pattern), `<kw> <regex> ` for an expression.
pub open spec fn trim_form_at(t: Seq<char>, i: int, k: int) -> Option<(OpView, int)> {
    let (kw, pos, kind) = trim_keyword(k);
    if !tag_at(t, i, kw) {
        None
    } else {
        let a = i + kw.len();
        if kind == 2 {
            match sp_arg(t, a) {
                Some((p, b)) => match space1(t, b) {
                    Some(c) => Some((OpView::TrimRegex(pos, p), c)),
                    None => None,
                },
                None => None,
            }
        } else {
            match sp_argx(t, a) {
                Some((p, b)) => {
                    let (nc, c) = opt_kw(t, b, kw_nocase());
                    let q = if nc { lower_seq(p) } else { p };
                    let v = if kind == 0 { OpView::TrimStr(pos, q, nc) } else { OpView::TrimChars(pos, q.to_set(), nc) };
                    match space1(t, c) {
                        Some(d) => Some((v, d)),
                        None => None,
                    }
                },
                None => match space1(t, a) {
                    Some(d) => Some((OpView::TrimBlank(pos), d)),
                    None => None,
                },
            }
        }
    }
}

/// The first trim command that fits at `i`, trying the forms from number `k` on.
pub open spec fn trim_from(t: Seq<char>, i: int, k: int) -> Option<(OpView, int)>
    decreases 9 - k,
{
    if k < 0 || k >= 9 {
        None
    } else if trim_form_at(t, i, k) is Some {
        trim_form_at(t, i, k)
    } else {
        trim_from(t, i, k + 1)
    }
}

/// `:reg <regex>[ <count>] `.
pub open spec fn reg_at(t: Seq<char>, i: int) -> Option<(OpView, int)> {
    if !tag_at(t, i, seq![':', 'r', 'e', 'g']) {
        None
    } else {
        match sp_arg(t, i + 4) {
            None => None,
            Some((p, b)) => {
                let (count, c) = match space1(t, b) {
                    Some(x) => match count_token(t, x) {
                        Some((n, d)) => (Some(n), d),
                        None => (None, b),
                    },
                    None => (None, b),
                };
                match space1(t, c) {
                    Some(d) => Some((OpView::Reg(p, count), d)),
                    None => None,
                }
            },
        }
    }
}

/// `:limit <n> ` keeps the first `n` records, `:skip <n> ` drops them.
pub open spec fn limit_skip_at(t: Seq<char>, i: int) -> Option<(OpView, int)> {
    let limit = tag_at(t, i, seq![':', 'l', 'i', 'm', 'i', 't']);
    let skip = tag_at(t, i, seq![':', 's', 'k', 'i', 'p']);
    let a = if limit { i + 6 } else { i + 5 };
    if !limit && !skip {
        None
    } else {
        match space1(t, a) {
            None => None,
            Some(b) => match count_token(t, b) {
                None => None,
                Some((n, c)) => match space1(t, c) {
                    None => None,
                    Some(d) => if limit {
                        if n == 0 {
                            Some((OpView::Slice(Seq::empty()), d))
                        } else {
                            Some((OpView::Slice(seq![(Some(0usize), Some((n - 1) as usize))]), d))
                        }
                    } else {
                        Some((OpView::Slice(seq![(Some(n), None)]), d))
                    },
                },
            },
        }
    }
}

/// A range of positions at `i`: `[<start>],[<end>]`, at least one of them.
pub open spec fn range_at(t: Seq<char>, i: int) -> Option<((Option<usize>, Option<usize>), int)> {
    let (a, b) = match count_token(t, i) {
        Some((n, b)) => (Some(n), b),
        None => (None, i),
    };
    if !char_at(t, b, ',') {
        None
    } else {
        let (c, e) = match count_token(t, b + 1) {
            Some((n, e)) => (Some(n), e),
            None => (None, b + 1),
        };
        if (a is Some || c is Some) && bound_ends(t, e) {
            Some(((a, c), e))
        } else {
            None
        }
    }
}

/// The ranges after `i`, each after spaces, as far as they go.
pub open spec fn ranges_from(t: Seq<char>, i: int) -> (Seq<(Option<usize>, Option<usize>)>, int)
    decreases t.len() - i,
{
    match space1(t, i) {
        Some(a) => match range_at(t, a) {
            Some((r, e)) => if i < e <= t.len() {
                let (rest, f) = ranges_from(t, e);
                (seq![r] + rest, f)
            } else {
                (Seq::empty(), i)
            },
            None => (Seq::empty(), i),
        },
        None => (Seq::empty(), i),
    }
}

/// `:slice[ <range>...] `.
pub open spec fn slice_at(t: Seq<char>, i: int) -> Option<(OpView, int)> {
    if !tag_at(t, i, seq![':', 's', 'l', 'i', 'c', 'e']) {
        None
    } else {
        let (rs, e) = ranges_from(t, i + 6);
        match space1(t, e) {
            Some(f) => Some((OpView::Slice(rs), f)),
            None => None,
        }
    }
}

/// `:sum[ <template>] `.
pub open spec fn sum_at(t: Seq<char>, i: int) -> Option<(OpView, int)> {
    if !tag_at(t, i, seq![':', 's', 'u', 'm']) {
        None
    } else {
        let (f, a) = match sp_argx(t, i + 4) {
            Some((f, a)) => (Some(f), a),
            None => (None, i + 4),
        };
        match space1(t, a) {
            Some(b) => Some((OpView::Sum(f), b)),
            None => None,
        }
    }
}

/// The steps of the first group at `i`: output to a sink, case, replace, uniq,
/// join, sort, take and drop.
#[verifier::opaque]
pub open spec fn op_first(t: Seq<char>, i: int) -> Option<(OpView, int)> {
    if peek_at(t, i) is Some {
        peek_at(t, i)
    } else if bare(t, i, seq![':', 'u', 'p', 'p', 'e', 'r']) is Some {
        Some((OpView::Case(CaseArg::Upper), bare(t, i, seq![':', 'u', 'p', 'p', 'e', 'r'])->Some_0))
    } else if bare(t, i, seq![':', 'l', 'o', 'w', 'e', 'r']) is Some {
        Some((OpView::Case(CaseArg::Lower), bare(t, i, seq![':', 'l', 'o', 'w', 'e', 'r'])->Some_0))
    } else if bare(t, i, seq![':', 'c', 'a', 's', 'e']) is Some {
        Some((OpView::Case(CaseArg::Switch), bare(t, i, seq![':', 'c', 'a', 's', 'e'])->Some_0))
    } else if replace_at(t, i) is Some {
        replace_at(t, i)
    } else if uniq_at(t, i) is Some {
        uniq_at(t, i)
    } else if join_at(t, i) is Some {
        join_at(t, i)
    } else if sort_at(t, i) is Some {
        sort_at(t, i)
    } else if take_drop_at(t, i) is Some {
        take_drop_at(t, i)
    } else {
        None
    }
}

/// The steps of the second group at `i`: trims, extraction, limits, slices, sum, count.
#[verifier::opaque]
pub open spec fn op_second(t: Seq<char>, i: int) -> Option<(OpView, int)> {
    if trim_from(t, i, 0) is Some {
        trim_from(t, i, 0)
    } else if reg_at(t, i) is Some {
        reg_at(t, i)
    } else if limit_skip_at(t, i) is Some {
        limit_skip_at(t, i)
    } else if slice_at(t, i) is Some {
        slice_at(t, i)
    } else if sum_at(t, i) is Some {
        sum_at(t, i)
    } else if bare(t, i, seq![':', 'c', 'o', 'u', 'n', 't']) is Some {
        Some((OpView::Count, bare(t, i, seq![':', 'c', 'o', 'u', 'n', 't'])->Some_0))
    } else {
        None
    }
}

/// One step of the pipeline at `i`, the first form that fits.
pub open spec fn op_at(t: Seq<char>, i: int) -> Option<(OpView, int)> {
    if op_first(t, i) is Some {
        op_first(t, i)
    } else {
        op_second(t, i)
    }
}

/// Whether the expression of a step is one the regex crate rejects.
pub open spec fn rejects(v: OpView) -> bool {
    match v {
        OpView::TakeDrop(_, _, SelView::Reg(p)) => !regex_compiles(p),
        OpView::TrimRegex(_, p) => !(regex_compiles(head_anchored(p)) && regex_compiles(tail_anchored(p))),
        OpView::Reg(p, _) => !regex_compiles(p),
        _ => false,
    }
}

/// The steps one after another from `i`, up to the first text that is none.
pub open spec fn ops_at(t: Seq<char>, i: int) -> (Seq<OpView>, int)
    decreases t.len() - i,
{
    match op_at(t, i) {
        Some((v, j)) => if i < j <= t.len() {
            let (rest, e) = ops_at(t, j);
            (seq![v] + rest, e)
        } else {
            (Seq::empty(), i)
        },
        None => (Seq::empty(), i),
    }
}

fn bare_exec(t: &Vec<char>, i: usize, kw: &Vec<char>) -> (r: Option<usize>)
    requires
        i <= t@.len(),
    ensures
        r is Some <==> bare(t@, i as int, kw@) is Some,
        r matches Some(j) ==> bare(t@, i as int, kw@) == Some(j as int) && i < j <= t@.len(),
{
    let n = t.len();
    if tag_exec(t, i, kw) {
        assert(i + kw@.len() <= n);
        space1_exec(t, i + kw.len())
    } else {
        None
    }
}

fn sp_arg_exec(t: &Vec<char>, i: usize) -> (r: Option<(String, usize)>)
    requires
        i <= t@.len(),
    ensures
        r is Some <==> sp_arg(t@, i as int) is Some,
        r matches Some((v, j)) ==> sp_arg(t@, i as int) == Some((v@, j as int)) && j <= t@.len(),
{
    match space1_exec(t, i) {
        Some(a) => arg_exec(t, a),
        None => None,
    }
}

fn sp_argx_exec(t: &Vec<char>, i: usize) -> (r: Option<(String, usize)>)
    requires
        i <= t@.len(),
    ensures
        r is Some <==> sp_argx(t@, i as int) is Some,
        r matches Some((v, j)) ==> sp_argx(t@, i as int) == Some((v@, j as int)) && j <= t@.len(),
{
    match space1_exec(t, i) {
        Some(a) => if char_at_exec(t, a, ':') {
            None
        } else {
            arg_exec(t, a)
        },
        None => None,
    }
}

fn opt_kw_exec(t: &Vec<char>, i: usize, kw: &Vec<char>) -> (r: (bool, usize))
    requires
        i <= t@.len(),
    ensures
        r.0 == opt_kw(t@, i as int, kw@).0,
        r.1 == opt_kw(t@, i as int, kw@).1,
        r.1 <= t@.len(),
{
    match sp_kw_exec(t, i, kw) {
        Some(j) => (true, j),
        None => (false, i),
    }
}

fn replace_exec(t: &Vec<char>, i: usize) -> (r: Option<(Op, usize)>)
    requires
        i <= t@.len(),
    ensures
        r is Some <==> replace_at(t@, i as int) is Some,
        r matches Some((op, j)) ==> replace_at(t@, i as int) == Some((op_view(&op), j as int)) && j <= t@.len(),
{
    let n = t.len();
    let kw = keyword(":replace");
    let k_nc = keyword("nocase");
    proof {
        reveal_strlit(":replace");
        reveal_strlit("nocase");
        assert(kw@ =~= seq![':', 'r', 'e', 'p', 'l', 'a', 'c', 'e']);
        assert(k_nc@ =~= kw_nocase());
    }
    if !tag_exec(t, i, &kw) {
        return None;
    }
    assert(i + 8 <= n);
    let (from, b) = match sp_arg_exec(t, i + 8) {
        Some(x) => x,
        None => {
            return None;
        },
    };
    let (to, c) = match sp_arg_exec(t, b) {
        Some(x) => x,
        None => {
            return None;
        },
    };
    let (count, d) = match space1_exec(t, c) {
        Some(x) => match count_token_exec(t, x) {
            Some((k, d)) => (Some(k), d),
            None => (None, c),
        },
        None => (None, c),
    };
    let (nc, e) = opt_kw_exec(t, d, &k_nc);
    match space1_exec(t, e) {
        Some(f) => Some((Op::Replace { from, to, count, nocase: nc }, f)),
        None => None,
    }
}

fn uniq_exec(t: &Vec<char>, i: usize) -> (r: Option<(Op, usize)>)
    requires
        i <= t@.len(),
    ensures
        r is Some <==> uniq_at(t@, i as int) is Some,
        r matches Some((op, j)) ==> uniq_at(t@, i as int) == Some((op_view(&op), j as int)) && j <= t@.len(),
{
    let n = t.len();
    let kw = keyword(":uniq");
    let k_nc = keyword("nocase");
    proof {
        reveal_strlit(":uniq");
        reveal_strlit("nocase");
        assert(kw@ =~= seq![':', 'u', 'n', 'i', 'q']);
        assert(k_nc@ =~= kw_nocase());
    }
    if !tag_exec(t, i, &kw) {
        return None;
    }
    assert(i + 5 <= n);
    let (nc, a) = opt_kw_exec(t, i + 5, &k_nc);
    match space1_exec(t, a) {
        Some(b) => Some((Op::Uniq { nocase: nc }, b)),
        None => None,
    }
}

fn join_exec(t: &Vec<char>, i: usize) -> (r: Option<(Op, usize)>)
    requires
        i <= t@.len(),
    ensures
        r is Some <==> join_at(t@, i as int) is Some,
        r matches Some((op, j)) ==> join_at(t@, i as int) == Some((op_view(&op), j as int)) && j <= t@.len(),
{
    let n = t.len();
    let kw = keyword(":join");
    proof {
        reveal_strlit(":join");
        assert(kw@ =~= seq![':', 'j', 'o', 'i', 'n']);
    }
    if !tag_exec(t, i, &kw) {
        return None;
    }
    assert(i + 5 <= n);
    let e1 = String::new();
    let e2 = String::new();
    let e3 = String::new();
    let ((delimiter, prefix, postfix, batch), a) = match sp_argx_exec(t, i + 5) {
        None => ((e1, e2, e3, None), i + 5),
        Some((d, b)) => match sp_argx_exec(t, b) {
            None => ((d, e2, e3, None), b),
            Some((p, c)) => match sp_argx_exec(t, c) {
                None => ((d, p, e3, None), c),
                Some((q, f)) => match space1_exec(t, f) {
                    Some(x) => match count_token_exec(t, x) {
                        Some((k, g)) => if k > 0 {
                            ((d, p, q, Some(k)), g)
                        } else {
                            ((d, p, q, None), f)
                        },
                        None => ((d, p, q, None), f),
                    },
                    None => ((d, p, q, None), f),
                },
            },
        },
    };
    match space1_exec(t, a) {
        Some(b) => Some((Op::Join { join_info: JoinInfo { delimiter, prefix, postfix }, batch }, b)),
        None => None,
    }
}

fn sort_exec(t: &Vec<char>, i: usize) -> (r: Option<(Op, usize)>)
    requires
        i <= t@.len(),
    ensures
        r is Some <==> sort_at(t@, i as int) is Some,
        r matches Some((op, j)) ==> sort_at(t@, i as int) == Some((op_view(&op), j as int)) && j <= t@.len(),
{
    let n = t.len();
    let kw = keyword(":sort");
    let k_num = keyword("num");
    let k_random = keyword("random");
    let k_nc = keyword("nocase");
    let k_desc = keyword("desc");
    proof {
        reveal_strlit(":sort");
        reveal_strlit("num");
        reveal_strlit("random");
        reveal_strlit("nocase");
        reveal_strlit("desc");
        assert(kw@ =~= seq![':', 's', 'o', 'r', 't']);
        assert(k_num@ =~= seq!['n', 'u', 'm']);
        assert(k_random@ =~= seq!['r', 'a', 'n', 'd', 'o', 'm']);
        assert(k_nc@ =~= kw_nocase());
        assert(k_desc@ =~= kw_desc());
    }
    if !tag_exec(t, i, &kw) {
        return None;
    }
    assert(i + 5 <= n);
    let a = i + 5;
    let (sort_by, desc, e) = match sp_kw_exec(t, a, &k_num) {
        Some(b) => {
            let dflt = match sp_arg_exec(t, b) {
                Some((w, d)) => match parse_integer(&chars_of(w.as_str())) {
                    Some(v) => Some((v, d)),
                    None => None,
                },
                None => None,
            };
            match dflt {
                Some((v, d)) => {
                    let (desc, e) = opt_kw_exec(t, d, &k_desc);
                    (SortBy::Num(v), desc, e)
                },
                None => {
                    let (desc, e) = opt_kw_exec(t, b, &k_desc);
                    (SortBy::Num(i64::MAX), desc, e)
                },
            }
        },
        None => match sp_kw_exec(t, a, &k_random) {
            Some(b) => (SortBy::Random, false, b),
            None => {
                let (nc, b) = opt_kw_exec(t, a, &k_nc);
                let (desc, c) = opt_kw_exec(t, b, &k_desc);
                (SortBy::Text(nc), desc, c)
            },
        },
    };
    match space1_exec(t, e) {
        Some(f) => Some((Op::Sort { sort_by, desc }, f)),
        None => None,
    }
}

fn take_drop_exec(t: &Vec<char>, i: usize) -> (r: Result<Option<(Op, usize)>, RpErr>)
    requires
        i <= t@.len(),
    ensures
        r matches Ok(None) <==> take_drop_at(t@, i as int) is None,
        r matches Ok(Some((op, j))) ==> take_drop_at(t@, i as int) == Some((op_view(&op), j as int)) && j
            <= t@.len(),
        r is Err <==> (take_drop_at(t@, i as int) matches Some((v, _)) && rejects(v)),
        r matches Err(e) ==> e is ParseRegexErr,
{
    let n = t.len();
    let k_take = keyword(":take");
    let k_drop = keyword(":drop");
    let k_while = keyword("while");
    proof {
        reveal_strlit(":take");
        reveal_strlit(":drop");
        reveal_strlit("while");
        assert(k_take@ =~= seq![':', 't', 'a', 'k', 'e']);
        assert(k_drop@ =~= seq![':', 'd', 'r', 'o', 'p']);
        assert(k_while@ =~= seq!['w', 'h', 'i', 'l', 'e']);
    }
    let take = tag_exec(t, i, &k_take);
    let drop = tag_exec(t, i, &k_drop);
    if !take && !drop {
        return Ok(None);
    }
    assert(i + 5 <= n);
    let a = match space1_exec(t, i + 5) {
        Some(a) => a,
        None => {
            return Ok(None);
        },
    };
    let (wh, b) = match bare_exec(t, a, &k_while) {
        Some(b) => (true, b),
        None => (false, a),
    };
    let mode = if take {
        if wh {
            TakeDropMode::TakeWhile
        } else {
            TakeDropMode::Take
        }
    } else {
        if wh {
            TakeDropMode::DropWhile
        } else {
            TakeDropMode::Drop
        }
    };
    match parse_cond_at(t, b) {
        Ok(Some((cond, e))) => Ok(Some((Op::TakeDrop { mode, cond }, e))),
        Ok(None) => Ok(None),
        Err(err) => Err(err),
    }
}

fn peek_exec(t: &Vec<char>, i: usize) -> (r: Option<(Op, usize)>)
    requires
        i <= t@.len(),
    ensures
        r is Some <==> peek_at(t@, i as int) is Some,
        r matches Some((op, j)) ==> peek_at(t@, i as int) == Some((op_view(&op), j as int)) && j <= t@.len(),
{
    let n = t.len();
    let kw = keyword(":peek");
    let k_append = keyword("append");
    let k_lf = keyword("lf");
    let k_crlf = keyword("crlf");
    proof {
        reveal_strlit(":peek");
        reveal_strlit("append");
        reveal_strlit("lf");
        reveal_strlit("crlf");
        assert(kw@ =~= seq![':', 'p', 'e', 'e', 'k']);
        assert(k_append@ =~= kw_append());
        assert(k_lf@ =~= seq!['l', 'f']);
        assert(k_crlf@ =~= seq!['c', 'r', 'l', 'f']);
    }
    if !tag_exec(t, i, &kw) {
        return None;
    }
    assert(i + 5 <= n);
    let a = i + 5;
    let (peek, e) = match sp_argx_exec(t, a) {
        Some((file, b)) => {
            let (append, c) = opt_kw_exec(t, b, &k_append);
            let (crlf, d) = match sp_kw_exec(t, c, &k_lf) {
                Some(d) => (Some(false), d),
                None => match sp_kw_exec(t, c, &k_crlf) {
                    Some(d) => (Some(true), d),
                    None => (None, c),
                },
            };
            (PeekArg::File { file, append, crlf }, d)
        },
        None => (PeekArg::StdOut, a),
    };
    match space1_exec(t, e) {
        Some(f) => Some((Op::Peek(peek), f)),
        None => None,
    }
}

fn parse_op_first(t: &Vec<char>, i: usize) -> (r: Result<Option<(Op, usize)>, RpErr>)
    requires
        i <= t@.len(),
    ensures
        r matches Ok(None) <==> op_first(t@, i as int) is None,
        r matches Ok(Some((op, j))) ==> op_first(t@, i as int) == Some((op_view(&op), j as int)) && j <= t@.len(),
        r is Err <==> (op_first(t@, i as int) matches Some((v, _)) && rejects(v)),
        r matches Err(e) ==> e is ParseRegexErr,
{
    reveal(op_first);
    let k_upper = keyword(":upper");
    let k_lower = keyword(":lower");
    let k_case = keyword(":case");

    proof {
        reveal_strlit(":upper");
        reveal_strlit(":lower");
        reveal_strlit(":case");

        assert(k_upper@ =~= seq![':', 'u', 'p', 'p', 'e', 'r']);
        assert(k_lower@ =~= seq![':', 'l', 'o', 'w', 'e', 'r']);
        assert(k_case@ =~= seq![':', 'c', 'a', 's', 'e']);

    }
    if let Some(x) = peek_exec(t, i) {
        return Ok(Some(x));
    }
    if let Some(j) = bare_exec(t, i, &k_upper) {
        return Ok(Some((Op::Case(CaseArg::Upper), j)));
    }
    if let Some(j) = bare_exec(t, i, &k_lower) {
        return Ok(Some((Op::Case(CaseArg::Lower), j)));
    }
    if let Some(j) = bare_exec(t, i, &k_case) {
        return Ok(Some((Op::Case(CaseArg::Switch), j)));
    }
    if let Some(x) = replace_exec(t, i) {
        return Ok(Some(x));
    }
    if let Some(x) = uniq_exec(t, i) {
        return Ok(Some(x));
    }
    if let Some(x) = join_exec(t, i) {
        return Ok(Some(x));
    }
    if let Some(x) = sort_exec(t, i) {
        return Ok(Some(x));
    }
    match take_drop_exec(t, i) {
        Ok(Some(x)) => {
            return Ok(Some(x));
        },
        Ok(None) => {},
        Err(e) => {
            return Err(e);
        },
    }
    Ok(None)
}

fn trim_keyword_exec(k: usize) -> (r: (Vec<char>, TrimPos, u8))
    requires
        k < 9,
    ensures
        r.0@ == trim_keyword(k as int).0,
        r.1 == trim_keyword(k as int).1,
        r.2 as int == trim_keyword(k as int).2,
{
    let (w, pos, kind): (&str, TrimPos, u8) = if k == 0 {
        (":trimc", TrimPos::Both, 1)
    } else if k == 1 {
        (":ltrimc", TrimPos::Head, 1)
    } else if k == 2 {
        (":rtrimc", TrimPos::Tail, 1)
    } else if k == 3 {
        (":trimr", TrimPos::Both, 2)
    } else if k == 4 {
        (":ltrimr", TrimPos::Head, 2)
    } else if k == 5 {
        (":rtrimr", TrimPos::Tail, 2)
    } else if k == 6 {
        (":trim", TrimPos::Both, 0)
    } else if k == 7 {
        (":ltrim", TrimPos::Head, 0)
    } else {
        (":rtrim", TrimPos::Tail, 0)
    };
    let v = keyword(w);
    proof {
        reveal_strlit(":trimc");
        reveal_strlit(":ltrimc");
        reveal_strlit(":rtrimc");
        reveal_strlit(":trimr");
        reveal_strlit(":ltrimr");
        reveal_strlit(":rtrimr");
        reveal_strlit(":trim");
        reveal_strlit(":ltrim");
        reveal_strlit(":rtrim");
        assert(v@ =~= trim_keyword(k as int).0);
    }
    (v, pos, kind)
}

fn trim_form_exec(t: &Vec<char>, i: usize, k: usize) -> (r: Result<Option<(Op, usize)>, RpErr>)
    requires
        i <= t@.len(),
        k < 9,
    ensures
        r matches Ok(None) <==> trim_form_at(t@, i as int, k as int) is None,
        r matches Ok(Some((op, j))) ==> trim_form_at(t@, i as int, k as int) == Some((op_view(&op), j as int))
            && j <= t@.len(),
        r is Err <==> (trim_form_at(t@, i as int, k as int) matches Some((v, _)) && rejects(v)),
        r matches Err(e) ==> e is ParseRegexErr,
{
    let n = t.len();
    let (kw, pos, kind) = trim_keyword_exec(k);
    let k_nc = keyword("nocase");
    proof {
        reveal_strlit("nocase");
        assert(k_nc@ =~= kw_nocase());
    }
    if !tag_exec(t, i, &kw) {
        return Ok(None);
    }
    assert(i + kw@.len() <= n);
    let a = i + kw.len();
    if kind == 2 {
        let (p, b) = match sp_arg_exec(t, a) {
            Some(x) => x,
            None => {
                return Ok(None);
            },
        };
        let c = match space1_exec(t, b) {
            Some(c) => c,
            None => {
                return Ok(None);
            },
        };
        match TrimArg::new_regex(pos, p) {
            Ok(arg) => Ok(Some((Op::Trim(arg), c))),
            Err(e) => Err(e),
        }
    } else {
        match sp_argx_exec(t, a) {
            Some((p, b)) => {
                let (nc, c) = opt_kw_exec(t, b, &k_nc);
                let d = match space1_exec(t, c) {
                    Some(d) => d,
                    None => {
                        return Ok(None);
                    },
                };
                let ghost q = if nc { lower_seq(p@) } else { p@ };
                if kind == 0 {
                    Ok(Some((Op::Trim(TrimArg::new_str(pos, p, nc)), d)))
                } else {
                    let arg = TrimArg::new_chars(pos, p, nc);
                    proof {
                        match arg.kind() {
                            TrimKind::Chars(set, _) => {
                                assert(set.to_set() =~= q.to_set());
                            },
                            _ => {},
                        }
                    }
                    Ok(Some((Op::Trim(arg), d)))
                }
            },
            None => match space1_exec(t, a) {
                Some(d) => Ok(Some((Op::Trim(TrimArg::new_blank(pos)), d))),
                None => Ok(None),
            },
        }
    }
}

fn trim_exec(t: &Vec<char>, i: usize) -> (r: Result<Option<(Op, usize)>, RpErr>)
    requires
        i <= t@.len(),
    ensures
        r matches Ok(None) <==> trim_from(t@, i as int, 0) is None,
        r matches Ok(Some((op, j))) ==> trim_from(t@, i as int, 0) == Some((op_view(&op), j as int)) && j
            <= t@.len(),
        r is Err <==> (trim_from(t@, i as int, 0) matches Some((v, _)) && rejects(v)),
        r matches Err(e) ==> e is ParseRegexErr,
{
    let mut k: usize = 0;
    while k < 9
        invariant
            0 <= k <= 9,
            i <= t@.len(),
            trim_from(t@, i as int, 0) == trim_from(t@, i as int, k as int),
        decreases 9 - k,
    {
        match trim_form_exec(t, i, k) {
            Ok(Some(x)) => {
                return Ok(Some(x));
            },
            Ok(None) => {},
            Err(e) => {
                return Err(e);
            },
        }
        k += 1;
    }
    Ok(None)
}

fn reg_exec(t: &Vec<char>, i: usize) -> (r: Result<Option<(Op, usize)>, RpErr>)
    requires
        i <= t@.len(),
    ensures
        r matches Ok(None) <==> reg_at(t@, i as int) is None,
        r matches Ok(Some((op, j))) ==> reg_at(t@, i as int) == Some((op_view(&op), j as int)) && j <= t@.len(),
        r is Err <==> (reg_at(t@, i as int) matches Some((v, _)) && rejects(v)),
        r matches Err(e) ==> e is ParseRegexErr,
{
    let n = t.len();
    let kw = keyword(":reg");
    proof {
        reveal_strlit(":reg");
        assert(kw@ =~= seq![':', 'r', 'e', 'g']);
    }
    if !tag_exec(t, i, &kw) {
        return Ok(None);
    }
    assert(i + 4 <= n);
    let (p, b) = match sp_arg_exec(t, i + 4) {
        Some(x) => x,
        None => {
            return Ok(None);
        },
    };
    let (count, c) = match space1_exec(t, b) {
        Some(x) => match count_token_exec(t, x) {
            Some((k, d)) => (Some(k), d),
            None => (None, b),
        },
        None => (None, b),
    };
    let d = match space1_exec(t, c) {
        Some(d) => d,
        None => {
            return Ok(None);
        },
    };
    match RegArg::new(p, count) {
        Ok(arg) => Ok(Some((Op::Reg(arg), d))),
        Err(e) => Err(e),
    }
}

fn limit_skip_exec(t: &Vec<char>, i: usize) -> (r: Option<(Op, usize)>)
    requires
        i <= t@.len(),
    ensures
        r is Some <==> limit_skip_at(t@, i as int) is Some,
        r matches Some((op, j)) ==> limit_skip_at(t@, i as int) == Some((op_view(&op), j as int)) && j
            <= t@.len(),
{
    let n = t.len();
    let k_limit = keyword(":limit");
    let k_skip = keyword(":skip");
    proof {
        reveal_strlit(":limit");
        reveal_strlit(":skip");
        assert(k_limit@ =~= seq![':', 'l', 'i', 'm', 'i', 't']);
        assert(k_skip@ =~= seq![':', 's', 'k', 'i', 'p']);
    }
    let limit = tag_exec(t, i, &k_limit);
    let skip = tag_exec(t, i, &k_skip);
    if !limit && !skip {
        return None;
    }
    let a = if limit {
        assert(i + 6 <= n);
        i + 6
    } else {
        assert(i + 5 <= n);
        i + 5
    };
    let b = match space1_exec(t, a) {
        Some(b) => b,
        None => {
            return None;
        },
    };
    let (k, c) = match count_token_exec(t, b) {
        Some(x) => x,
        None => {
            return None;
        },
    };
    let d = match space1_exec(t, c) {
        Some(d) => d,
        None => {
            return None;
        },
    };
    let mut ranges: Vec<(Option<usize>, Option<usize>)> = Vec::new();
    if limit {
        if k > 0 {
            ranges.push((Some(0), Some(k - 1)));
        }
    } else {
        ranges.push((Some(k), None));
    }
    proof {
        if limit {
            if k == 0 {
                assert(ranges@ =~= Seq::<(Option<usize>, Option<usize>)>::empty());
            } else {
                assert(ranges@ =~= seq![(Some(0usize), Some((k - 1) as usize))]);
            }
        } else {
            assert(ranges@ =~= seq![(Some(k), None::<usize>)]);
        }
    }
    Some((Op::Slice { ranges }, d))
}

fn range_exec(t: &Vec<char>, i: usize) -> (r: Option<((Option<usize>, Option<usize>), usize)>)
    requires
        i <= t@.len(),
    ensures
        r is Some <==> range_at(t@, i as int) is Some,
        r matches Some((x, j)) ==> range_at(t@, i as int) == Some((x, j as int)) && j <= t@.len(),
{
    let (a, b) = match count_token_exec(t, i) {
        Some((k, b)) => (Some(k), b),
        None => (None, i),
    };
    let n = t.len();
    if !char_at_exec(t, b, ',') {
        return None;
    }
    assert(b < n);
    let (c, e) = match count_token_exec(t, b + 1) {
        Some((k, e)) => (Some(k), e),
        None => (None, b + 1),
    };
    if (a.is_some() || c.is_some()) && bound_ends_exec(t, e) {
        Some(((a, c), e))
    } else {
        None
    }
}

fn slice_exec(t: &Vec<char>, i: usize) -> (r: Option<(Op, usize)>)
    requires
        i <= t@.len(),
    ensures
        r is Some <==> slice_at(t@, i as int) is Some,
        r matches Some((op, j)) ==> slice_at(t@, i as int) == Some((op_view(&op), j as int)) && j <= t@.len(),
{
    let n = t.len();
    let kw = keyword(":slice");
    proof {
        reveal_strlit(":slice");
        assert(kw@ =~= seq![':', 's', 'l', 'i', 'c', 'e']);
    }
    if !tag_exec(t, i, &kw) {
        return None;
    }
    assert(i + 6 <= n);
    let start = i + 6;
    let mut ranges: Vec<(Option<usize>, Option<usize>)> = Vec::new();
    let mut j = start;
    loop
        invariant
            start <= j <= t@.len(),
            ranges_from(t@, start as int) == (ranges@ + ranges_from(t@, j as int).0, ranges_from(t@, j as int).1),
        ensures
            start <= j <= t@.len(),
            ranges_from(t@, start as int) == (ranges@, j as int),
        decreases t@.len() - j,
    {
        let a = match space1_exec(t, j) {
            Some(a) => a,
            None => {
                assert(ranges_from(t@, j as int) == (Seq::<(Option<usize>, Option<usize>)>::empty(), j as int));
                assert(ranges@ + Seq::<(Option<usize>, Option<usize>)>::empty() =~= ranges@);
                break;
            },
        };
        match range_exec(t, a) {
            Some((x, e)) => {
                if e <= j {
                    assert(ranges_from(t@, j as int) == (Seq::<(Option<usize>, Option<usize>)>::empty(), j as int));
                    assert(ranges@ + Seq::<(Option<usize>, Option<usize>)>::empty() =~= ranges@);
                    break;
                }
                let ghost before = ranges@;
                ranges.push(x);
                assert(before + (seq![x] + ranges_from(t@, e as int).0) =~= ranges@ + ranges_from(t@, e as int).0);
                j = e;
            },
            None => {
                assert(ranges_from(t@, j as int) == (Seq::<(Option<usize>, Option<usize>)>::empty(), j as int));
                assert(ranges@ + Seq::<(Option<usize>, Option<usize>)>::empty() =~= ranges@);
                break;
            },
        }
    }
    match space1_exec(t, j) {
        Some(f) => Some((Op::Slice { ranges }, f)),
        None => None,
    }
}

fn sum_exec(t: &Vec<char>, i: usize) -> (r: Option<(Op, usize)>)
    requires
        i <= t@.len(),
    ensures
        r is Some <==> sum_at(t@, i as int) is Some,
        r matches Some((op, j)) ==> sum_at(t@, i as int) == Some((op_view(&op), j as int)) && j <= t@.len(),
{
    let n = t.len();
    let kw = keyword(":sum");
    proof {
        reveal_strlit(":sum");
        assert(kw@ =~= seq![':', 's', 'u', 'm']);
    }
    if !tag_exec(t, i, &kw) {
        return None;
    }
    assert(i + 4 <= n);
    let (fmt, a) = match sp_argx_exec(t, i + 4) {
        Some((f, a)) => (Some(f), a),
        None => (None, i + 4),
    };
    match space1_exec(t, a) {
        Some(b) => Some((Op::Sum { fmt }, b)),
        None => None,
    }
}

fn parse_op_second(t: &Vec<char>, i: usize) -> (r: Result<Option<(Op, usize)>, RpErr>)
    requires
        i <= t@.len(),
    ensures
        r matches Ok(None) <==> op_second(t@, i as int) is None,
        r matches Ok(Some((op, j))) ==> op_second(t@, i as int) == Some((op_view(&op), j as int)) && j <= t@.len(),
        r is Err <==> (op_second(t@, i as int) matches Some((v, _)) && rejects(v)),
        r matches Err(e) ==> e is ParseRegexErr,
{
    reveal(op_second);
    let k_count = keyword(":count");
    proof {
        reveal_strlit(":count");
        assert(k_count@ =~= seq![':', 'c', 'o', 'u', 'n', 't']);
    }
    match trim_exec(t, i) {
        Ok(Some(x)) => {
            return Ok(Some(x));
        },
        Ok(None) => {},
        Err(e) => {
            return Err(e);
        },
    }
    match reg_exec(t, i) {
        Ok(Some(x)) => {
            return Ok(Some(x));
        },
        Ok(None) => {},
        Err(e) => {
            return Err(e);
        },
    }
    if let Some(x) = limit_skip_exec(t, i) {
        return Ok(Some(x));
    }
    if let Some(x) = slice_exec(t, i) {
        return Ok(Some(x));
    }
    if let Some(x) = sum_exec(t, i) {
        return Ok(Some(x));
    }
    match bare_exec(t, i, &k_count) {
        Some(j) => Ok(Some((Op::Count, j))),
        None => Ok(None),
    }
}

/// The step at `i`, if one is written there; an expression the regex crate
/// rejects is an error.
pub fn parse_op_at(t: &Vec<char>, i: usize) -> (r: Result<Option<(Op, usize)>, RpErr>)
    requires
        i <= t@.len(),
    ensures
        r matches Ok(None) <==> op_at(t@, i as int) is None,
        r matches Ok(Some((op, j))) ==> op_at(t@, i as int) == Some((op_view(&op), j as int)) && j <= t@.len(),
        r is Err <==> (op_at(t@, i as int) matches Some((v, _)) && rejects(v)),
        r matches Err(e) ==> e is ParseRegexErr,
{
    match parse_op_first(t, i) {
        Ok(Some(x)) => Ok(Some(x)),
        Ok(None) => parse_op_second(t, i),
        Err(e) => Err(e),
    }
}

pub open spec fn op_views(ops: Seq<Op>) -> Seq<OpView> {
    ops.map_values(|o: Op| op_view(&o))
}

/// Whether, going from step to step from `i` as `ops_at` does, some step has
/// an expression the regex crate rejects.
pub open spec fn first_rejected(t: Seq<char>, i: int) -> bool
    decreases t.len() - i,
{
    match op_at(t, i) {
        Some((v, j)) => rejects(v) || (i < j <= t.len() && first_rejected(t, j)),
        None => false,
    }
}

/// The steps one after another from `i`, up to the first text that is none.
pub fn parse_ops_at(t: &Vec<char>, i: usize) -> (r: Result<(Vec<Op>, usize), RpErr>)
    requires
        i <= t@.len(),
    ensures
        r matches Ok((ops, j)) ==> op_views(ops@) == ops_at(t@, i as int).0 && j == ops_at(t@, i as int).1
            && j <= t@.len(),
        r is Err <==> first_rejected(t@, i as int),
        r matches Err(e) ==> e is ParseRegexErr,
{
    let mut ops: Vec<Op> = Vec::new();
    let mut j = i;
    loop
        invariant
            i <= j <= t@.len(),
            first_rejected(t@, i as int) == first_rejected(t@, j as int),
            ops_at(t@, i as int) == (op_views(ops@) + ops_at(t@, j as int).0, ops_at(t@, j as int).1),
        decreases t@.len() - j,
    {
        match parse_op_at(t, j) {
            Ok(Some((op, k))) => {
                if k <= j {
                    assert(ops_at(t@, j as int).0 =~= Seq::<OpView>::empty());
                    assert(op_views(ops@) + Seq::<OpView>::empty() =~= op_views(ops@));
                    return Ok((ops, j));
                }
                let ghost before = op_views(ops@);
                let ghost v = op_view(&op);
                ops.push(op);
                proof {
                    assert(op_views(ops@) =~= before.push(v));
                    assert(ops_at(t@, j as int).0 == seq![v] + ops_at(t@, k as int).0);
                    assert(before + (seq![v] + ops_at(t@, k as int).0) =~= op_views(ops@) + ops_at(t@, k as int).0);
                }
                j = k;
            },
            Ok(None) => {
                assert(ops_at(t@, j as int).0 =~= Seq::<OpView>::empty());
                assert(op_views(ops@) + Seq::<OpView>::empty() =~= op_views(ops@));
                return Ok((ops, j));
            },
            Err(e) => {
                return Err(e);
            },
        }
    }
}

/// Where an output command, in plain values, sends the records.
pub enum OutView {
    Out,
    File(Seq<char>, bool, Option<bool>),
    Clip(Option<bool>),
}

pub open spec fn out_view(o: &Output) -> OutView {
    match o {
        Output::Out => OutView::Out,
        Output::File { file, append, crlf } => OutView::File(file@, *append, *crlf),
        Output::Clip { crlf } => OutView::Clip(*crlf),
    }
}

/// The output command at `e` and where it ends; standard output, reading
/// nothing, when neither `to file` nor `to clip` is written there.
pub open spec fn out_cmd(t: Seq<char>, e: int) -> (OutView, int) {
    match to_file(t, e) {
        Some((f, a, c, g)) => (OutView::File(f, a, c), g),
        None => match to_clip(t, e) {
            Some(g) => (OutView::Clip(None), g),
            None => (OutView::Out, e),
        },
    }
}

/// What follows the input command: the steps, then the output command, and nothing else.
pub fn parse_after_input(rest: &str) -> (r: Result<(Vec<Op>, Output), RpErr>)
    ensures
        r is Ok <==> !first_rejected(rest@, 0) && out_cmd(rest@, ops_at(rest@, 0).1).1 == rest@.len(),
        r matches Ok((ops, out)) ==> op_views(ops@) == ops_at(rest@, 0).0 && out_view(&out) == out_cmd(
            rest@,
            ops_at(rest@, 0).1,
        ).0,
        first_rejected(rest@, 0) ==> (r matches Err(e) && e is ParseRegexErr),
        !first_rejected(rest@, 0) && out_cmd(rest@, ops_at(rest@, 0).1).1 < rest@.len() ==> (r matches Err(
            RpErr::UnexpectedRemaining { remaining, .. },
        ) && remaining@ == rest@.subrange(out_cmd(rest@, ops_at(rest@, 0).1).1, rest@.len() as int)),
{
    let t = chars_of(rest);
    let (ops, j) = match parse_ops_at(&t, 0) {
        Ok(x) => x,
        Err(e) => {
            return Err(e);
        },
    };
    let (out, k) = parse_out_at(&t, j);
    if k < t.len() {
        Err(
            RpErr::UnexpectedRemaining {
                cmd: String::from_str("--eval"),
                arg: String::from_str("token"),
                remaining: crate::grammar::rest_exec(&t, k),
            },
        )
    } else {
        Ok((ops, out))
    }
}

/// The text after the input command of `command`.
pub open spec fn after_input(command: Seq<char>) -> Seq<char> {
    rest_of(command, input_cmd(command)->Some_0.1)
}

/// A whole command in the command language: input, steps, output, and
/// nothing left over.
pub fn parse(command: &str) -> (r: Result<(Input, Vec<Op>, Output), RpErr>)
    ensures
        r is Ok <==> input_cmd(command@) is Some && !first_rejected(after_input(command@), 0) && out_cmd(
            after_input(command@),
            ops_at(after_input(command@), 0).1,
        ).1 == after_input(command@).len(),
        r matches Ok((i, ops, out)) ==> ({
            let a = after_input(command@);
            &&& input_view(&i) == input_cmd(command@)->Some_0.0
            &&& op_views(ops@) == ops_at(a, 0).0
            &&& out_view(&out) == out_cmd(a, ops_at(a, 0).1).0
        }),
        input_cmd(command@) is None ==> r matches Err(RpErr::ParseInputTokenErr(_)),
{
    match crate::grammar::parse_input(command) {
        Err(msg) => Err(RpErr::ParseInputTokenErr(msg)),
        Ok((rest, input)) => match parse_after_input(rest.as_str()) {
            Ok((ops, out)) => Ok((input, ops, out)),
            Err(e) => Err(e),
        },
    }
}

/// One step of the pipeline at the start of `input`, and the text after it.
pub fn parse_op(input: &str) -> (r: Result<(String, Op), RpErr>)
    ensures
        r is Ok <==> (op_at(input@, 0) matches Some((v, _)) && !rejects(v)),
        op_at(input@, 0) is None ==> r matches Err(RpErr::ParseOpTokenErr(_)),
        r matches Err(e) ==> (e is ParseRegexErr || e is ParseOpTokenErr),
        r matches Ok((rest, op)) ==> ({
            let (v, j) = op_at(input@, 0)->Some_0;
            &&& op_view(&op) == v
            &&& rest@ == input@.subrange(j, input@.len() as int)
        }),
{
    let t = chars_of(input);
    match parse_op_at(&t, 0) {
        Ok(Some((op, j))) => Ok((crate::grammar::rest_exec(&t, j), op)),
        Ok(None) => Err(RpErr::ParseOpTokenErr(String::from_str("expected a step of the pipeline"))),
        Err(e) => Err(e),
    }
}

} // verus!
