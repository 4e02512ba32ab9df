use vstd::prelude::*;

use crate::config::Config;
use crate::err::RpErr;
use crate::grammar::unescaped;
use crate::op::texts;
use crate::command::{op_view, op_views, out_view, OpView, OutView};
use crate::grammar::{input_view, InputView};
use crate::num::{parse_i64_spec, parse_integer};
use crate::op::CaseArg;
use crate::pipeline::{Input, Op, Output, PeekArg};
use crate::text::{ascii_lower, chars_of, lower_seq, string_of, to_ascii_lower};

verus! {

/// Command-line words, read from the front.
pub struct ArgStream {
    args: Vec<String>,
    pos: usize,
}

/// Whether `s` is the word `kw`, ASCII case ignored.
pub open spec fn same_word(s: Seq<char>, kw: Seq<char>) -> bool {
    lower_seq(s) == lower_seq(kw)
}

fn same_word_exec(s: &str, kw: &str) -> (r: bool)
    ensures
        r == same_word(s@, kw@),
{
    let a = chars_of(s);
    let b = chars_of(kw);
    if a.len() != b.len() {
        assert(lower_seq(a@).len() == a@.len());
        assert(lower_seq(b@).len() == b@.len());
        return false;
    }
    let mut i: usize = 0;
    while i < a.len()
        invariant
            a@.len() == b@.len(),
            a@ == s@,
            b@ == kw@,
            0 <= i <= a@.len(),
            forall|k: int| 0 <= k < i ==> ascii_lower(#[trigger] a@[k]) == ascii_lower(b@[k]),
        decreases a@.len() - i,
    {
        if to_ascii_lower(a[i]) != to_ascii_lower(b[i]) {
            assert(lower_seq(a@)[i as int] != lower_seq(b@)[i as int]);
            return false;
        }
        i += 1;
    }
    assert(lower_seq(a@) =~= lower_seq(b@));
    true
}

impl ArgStream {
    #[verifier::type_invariant]
    spec fn inv(&self) -> bool {
        self.pos <= self.args@.len()
    }

    /// The words not read yet.
    pub closed spec fn rest(&self) -> Seq<Seq<char>> {
        texts(self.args@).skip(self.pos as int)
    }

    pub fn new(args: Vec<String>) -> (r: ArgStream)
        ensures
            r.rest() == texts(args@),
    {
        let r = ArgStream { args, pos: 0 };
        assert(texts(r.args@).skip(0) =~= texts(r.args@));
        r
    }

    /// The next word, left in place.
    pub fn peek(&self) -> (r: Option<&String>)
        ensures
            self.rest().len() == 0 ==> r is None,
            self.rest().len() > 0 ==> (r matches Some(s) && s@ == self.rest()[0]),
    {
        proof {
            use_type_invariant(self);
        }
        if self.pos < self.args.len() {
            Some(&self.args[self.pos])
        } else {
            None
        }
    }

    /// Takes the next word.
    pub fn next(&mut self) -> (r: Option<String>)
        ensures
            old(self).rest().len() == 0 ==> r is None && final(self).rest() == old(self).rest(),
            old(self).rest().len() > 0 ==> (r matches Some(s) && s@ == old(self).rest()[0]
                && final(self).rest() == old(self).rest().drop_first()),
    {
        proof {
            use_type_invariant(&*self);
        }
        if self.pos < self.args.len() {
            let s = self.args[self.pos].clone();
            self.pos = self.pos + 1;
            assert(self.rest() =~= old(self).rest().drop_first());
            Some(s)
        } else {
            None
        }
    }

    /// The words not read yet, taken out.
    pub fn remaining(self) -> (r: Vec<String>)
        ensures
            texts(r@) == self.rest(),
    {
        proof {
            use_type_invariant(&self);
        }
        let mut out: Vec<String> = Vec::new();
        let mut i = self.pos;
        while i < self.args.len()
            invariant
                self.pos <= i <= self.args@.len(),
                texts(out@) == texts(self.args@).subrange(self.pos as int, i as int),
            decreases self.args@.len() - i,
        {
            let ghost prev = texts(out@);
            out.push(self.args[i].clone());
            assert(texts(out@) =~= prev.push(texts(self.args@)[i as int]));
            i += 1;
            assert(texts(out@) =~= texts(self.args@).subrange(self.pos as int, i as int));
        }
        out
    }
}

/// The global switch a word names, if any.
pub open spec fn config_of(s: Seq<char>) -> Option<Config> {
    if s == seq!['-', 'h'] {
        Some(Config::Help)
    } else if s == seq!['-', 'V'] {
        Some(Config::Version)
    } else if s == seq!['-', 'v'] {
        Some(Config::Verbose)
    } else if s == seq!['-', 'd'] {
        Some(Config::DryRun)
    } else if s == seq!['-', '-', 'n', 'o', 'c', 'a', 's', 'e'] {
        Some(Config::Nocase)
    } else if s == seq!['-', '-', 'e', 'v', 'a', 'l'] {
        Some(Config::Eval)
    } else {
        None
    }
}

/// The global switch that `arg` names; `None` for any other word or no word.
pub fn parse_config(arg: Option<&String>) -> (r: Option<Config>)
    ensures
        arg is None ==> r is None,
        arg matches Some(a) ==> r == config_of(a@),
{
    match arg {
        Some(a) => {
            let s = a.as_str();
            proof {
                reveal_strlit("-h");
                reveal_strlit("-V");
                reveal_strlit("-v");
                reveal_strlit("-d");
                reveal_strlit("--nocase");
                reveal_strlit("--eval");
            }
            if crate::text::same_text(s, "-h") {
                assert("-h"@ =~= seq!['-', 'h']);
                Some(Config::Help)
            } else if crate::text::same_text(s, "-V") {
                assert("-h"@ =~= seq!['-', 'h']);
                assert("-V"@ =~= seq!['-', 'V']);
                Some(Config::Version)
            } else if crate::text::same_text(s, "-v") {
                assert("-h"@ =~= seq!['-', 'h']);
                assert("-V"@ =~= seq!['-', 'V']);
                assert("-v"@ =~= seq!['-', 'v']);
                Some(Config::Verbose)
            } else if crate::text::same_text(s, "-d") {
                assert("-h"@ =~= seq!['-', 'h']);
                assert("-V"@ =~= seq!['-', 'V']);
                assert("-v"@ =~= seq!['-', 'v']);
                assert("-d"@ =~= seq!['-', 'd']);
                Some(Config::DryRun)
            } else if crate::text::same_text(s, "--nocase") {
                assert("-h"@ =~= seq!['-', 'h']);
                assert("-V"@ =~= seq!['-', 'V']);
                assert("-v"@ =~= seq!['-', 'v']);
                assert("-d"@ =~= seq!['-', 'd']);
                assert("--nocase"@ =~= seq!['-', '-', 'n', 'o', 'c', 'a', 's', 'e']);
                Some(Config::Nocase)
            } else if crate::text::same_text(s, "--eval") {
                assert("-h"@ =~= seq!['-', 'h']);
                assert("-V"@ =~= seq!['-', 'V']);
                assert("-v"@ =~= seq!['-', 'v']);
                assert("-d"@ =~= seq!['-', 'd']);
                assert("--nocase"@ =~= seq!['-', '-', 'n', 'o', 'c', 'a', 's', 'e']);
                assert("--eval"@ =~= seq!['-', '-', 'e', 'v', 'a', 'l']);
                Some(Config::Eval)
            } else {
                assert("-h"@ =~= seq!['-', 'h']);
                assert("-V"@ =~= seq!['-', 'V']);
                assert("-v"@ =~= seq!['-', 'v']);
                assert("-d"@ =~= seq!['-', 'd']);
                assert("--nocase"@ =~= seq!['-', '-', 'n', 'o', 'c', 'a', 's', 'e']);
                assert("--eval"@ =~= seq!['-', '-', 'e', 'v', 'a', 'l']);
                None
            }
        },
        None => None,
    }
}

/// Reads the global switches at the front of `args`, up to the first word
/// that names none.
pub fn parse_configs(args: &mut ArgStream) -> (r: Vec<Config>)
    ensures
        r@.len() <= old(args).rest().len(),
        final(args).rest() == old(args).rest().skip(r@.len() as int),
        forall|k: int| 0 <= k < r@.len() ==> config_of(old(args).rest()[k]) == Some(#[trigger] r@[k]),
        r@.len() < old(args).rest().len() ==> config_of(old(args).rest()[r@.len() as int]) is None,
{
    let ghost start = args.rest();
    let mut configs: Vec<Config> = Vec::new();
    loop
        invariant
            start == old(args).rest(),
            configs@.len() <= start.len(),
            args.rest() == start.skip(configs@.len() as int),
            forall|k: int| 0 <= k < configs@.len() ==> config_of(start[k]) == Some(#[trigger] configs@[k]),
        decreases start.len() - configs@.len(),
    {
        let c = parse_config(args.peek());
        match c {
            Some(config) => {
                let ghost k = configs@.len() as int;
                args.next();
                configs.push(config);
                assert(start.skip(k).drop_first() =~= start.skip(k + 1));
                assert(start.skip(k)[0] == start[k]);
            },
            None => {
                proof {
                    if configs@.len() < start.len() {
                        assert(start.skip(configs@.len() as int)[0] == start[configs@.len() as int]);
                    }
                }
                return configs;
            },
        }
    }
}

/// The values of an argument: one word, or several between `[` and `]`.
pub open spec fn arg_values(r: Seq<Seq<char>>) -> ArgOutcome {
    if r.len() == 0 {
        ArgOutcome::Missing
    } else if r[0] == seq!['['] {
        match first_close(r, 1) {
            None => ArgOutcome::Unclosed,
            Some(j) => if r[j] == seq!['['] {
                ArgOutcome::UnexpectedOpen
            } else if j == 1 {
                ArgOutcome::NotEnough
            } else {
                ArgOutcome::Values(r.subrange(1, j).map_values(|w: Seq<char>| unescaped(w)), j + 1)
            },
        }
    } else if r[0] == seq![']'] {
        ArgOutcome::UnexpectedClose
    } else {
        ArgOutcome::Values(seq![unescaped(r[0])], 1)
    }
}

/// How reading an argument ends: its values and how many words they took, or an error.
pub enum ArgOutcome {
    Values(Seq<Seq<char>>, int),
    Missing,
    Unclosed,
    UnexpectedOpen,
    NotEnough,
    UnexpectedClose,
}

/// The first position from `i` on that holds a bracket, `[` or `]`.
pub open spec fn first_close(r: Seq<Seq<char>>, i: int) -> Option<int>
    decreases r.len() - i,
{
    if i < 0 || i >= r.len() {
        None
    } else if r[i] == seq![']'] || r[i] == seq!['['] {
        Some(i)
    } else {
        first_close(r, i + 1)
    }
}

/// `\[` and `\]` stand for the brackets themselves.
pub fn escaped(arg: String) -> (r: String)
    ensures
        r@ == unescaped(arg@),
{
    let t = chars_of(arg.as_str());
    if t.len() == 2 && t[0] == '\\' && (t[1] == '[' || t[1] == ']') {
        let mut u: Vec<char> = Vec::new();
        u.push(t[1]);
        proof {
            if t[1] == '[' {
                assert(t@ =~= seq!['\\', '[']);
            } else {
                assert(t@ =~= seq!['\\', ']']);
            }
            assert(u@ =~= t@.drop_first());
        }
        string_of(&u)
    } else {
        proof {
            if t@.len() == 2 {
                if t@ == seq!['\\', '['] {
                    assert(t@[0] == '\\' && t@[1] == '[');
                }
                if t@ == seq!['\\', ']'] {
                    assert(t@[0] == '\\' && t@[1] == ']');
                }
            } else {
                assert(t@.len() != seq!['\\', '['].len());
                assert(t@.len() != seq!['\\', ']'].len());
            }
        }
        arg
    }
}

fn words_from(v: &Vec<String>) -> (r: Vec<String>)
    ensures
        texts(r@) == texts(v@),
{
    let mut out: Vec<String> = Vec::new();
    let mut i: usize = 0;
    while i < v.len()
        invariant
            0 <= i <= v@.len(),
            texts(out@) == texts(v@).take(i as int),
        decreases v@.len() - i,
    {
        let ghost prev = texts(out@);
        out.push(v[i].clone());
        assert(texts(out@) =~= prev.push(texts(v@)[i as int]));
        i += 1;
        assert(texts(out@) =~= texts(v@).take(i as int));
    }
    assert(texts(v@).take(v@.len() as int) =~= texts(v@));
    out
}

/// Reads the values of argument `arg` of command `cmd`: one word, or the
/// words between `[` and `]`, at least one.
pub fn parse_arg_or_arg1(args: &mut ArgStream, cmd: &str, arg: &str) -> (r: Result<Vec<String>, RpErr>)
    ensures
        match arg_values(old(args).rest()) {
            ArgOutcome::Values(vs, n) => r matches Ok(v) && texts(v@) == vs && final(args).rest()
                == old(args).rest().skip(n),
            ArgOutcome::Missing => r matches Err(RpErr::MissingArg { .. }),
            ArgOutcome::Unclosed => r matches Err(RpErr::UnclosingMultiArg { .. }),
            ArgOutcome::UnexpectedOpen => r matches Err(RpErr::UnexpectedOpeningBracket { .. }),
            ArgOutcome::NotEnough => r matches Err(RpErr::ArgNotEnough { .. }),
            ArgOutcome::UnexpectedClose => r matches Err(RpErr::UnexpectedClosingBracket { .. }),
        },
{
    let ghost start = args.rest();
    proof {
        reveal_strlit("[");
        reveal_strlit("]");
        assert("["@ =~= seq!['[']);
        assert("]"@ =~= seq![']']);
    }
    let first = match args.next() {
        Some(v) => v,
        None => {
            return Err(RpErr::MissingArg { cmd: String::from_str(cmd), arg: String::from_str(arg) });
        },
    };
    if crate::text::same_text(first.as_str(), "[") {
        let mut values: Vec<String> = Vec::new();
        loop
            invariant
                start == old(args).rest(),
                start.len() > 0,
                start[0] == seq!['['],
                "]"@ == seq![']'],
                "["@ == seq!['['],
                1 + values@.len() as int <= start.len(),
                args.rest() == start.skip(1 + values@.len() as int),
                first_close(start, 1) == first_close(start, 1 + values@.len() as int),
                texts(values@) == start.subrange(1, 1 + values@.len() as int).map_values(|w: Seq<char>| unescaped(w)),
            decreases start.len() - values@.len(),
        {
            let ghost k: int = 1 + values@.len() as int;
            match args.next() {
                Some(value) => {
                    assert(start.skip(k)[0] == start[k]);
                    assert(start.skip(k).drop_first() =~= start.skip(k + 1));
                    if crate::text::same_text(value.as_str(), "]") {
                        assert(start[k] != seq!['[']) by {
                            assert(start[k][0] == ']');
                            assert(seq!['['][0] == '[');
                        }
                        if values.len() == 0 {
                            return Err(RpErr::ArgNotEnough { cmd: String::from_str(cmd), arg: String::from_str(arg) });
                        }
                        return Ok(values);
                    } else if crate::text::same_text(value.as_str(), "[") {
                        return Err(
                            RpErr::UnexpectedOpeningBracket { cmd: String::from_str(cmd), arg: String::from_str(arg) },
                        );
                    } else {
                        let ghost prev = texts(values@);
                        let e = escaped(value);
                        values.push(e);
                        assert(texts(values@) =~= prev.push(e@));
                        assert(texts(values@) =~= start.subrange(1, k + 1).map_values(|w: Seq<char>| unescaped(w)));
                    }
                },
                None => {
                    assert(start.skip(k).len() == 0);
                    return Err(RpErr::UnclosingMultiArg { cmd: String::from_str(cmd), arg: String::from_str(arg) });
                },
            }
        }
    } else if crate::text::same_text(first.as_str(), "]") {
        Err(RpErr::UnexpectedClosingBracket { cmd: String::from_str(cmd), arg: String::from_str(arg) })
    } else {
        let mut v: Vec<String> = Vec::new();
        let e = escaped(first);
        v.push(e);
        assert(texts(v@) =~= seq![e@]);
        Ok(v)
    }
}

/// The line ending a word asks for: `crlf`, `lf`, or neither.
pub open spec fn ending_of(w: Seq<char>) -> Option<bool> {
    if same_word(w, seq!['c', 'r', 'l', 'f']) {
        Some(true)
    } else if same_word(w, seq!['l', 'f']) {
        Some(false)
    } else {
        None
    }
}

/// A file name, then optionally `append`, then optionally `crlf` or `lf`:
/// the name, whether to append, the line ending, and how many words they took.
pub open spec fn file_info(r: Seq<Seq<char>>) -> Option<(Seq<char>, bool, Option<bool>, int)> {
    if r.len() == 0 {
        None
    } else if r.len() > 1 && same_word(r[1], seq!['a', 'p', 'p', 'e', 'n', 'd']) {
        if r.len() > 2 && ending_of(r[2]) is Some {
            Some((r[0], true, ending_of(r[2]), 3))
        } else {
            Some((r[0], true, None, 2))
        }
    } else if r.len() > 1 && ending_of(r[1]) is Some {
        Some((r[0], false, ending_of(r[1]), 2))
    } else {
        Some((r[0], false, None, 1))
    }
}

fn ending_exec(args: &ArgStream) -> (r: Option<bool>)
    ensures
        args.rest().len() == 0 ==> r is None,
        args.rest().len() > 0 ==> r == ending_of(args.rest()[0]),
{
    proof {
        reveal_strlit("crlf");
        reveal_strlit("lf");
        assert("crlf"@ =~= seq!['c', 'r', 'l', 'f']);
        assert("lf"@ =~= seq!['l', 'f']);
    }
    match args.peek() {
        Some(w) => if same_word_exec(w.as_str(), "crlf") {
            Some(true)
        } else if same_word_exec(w.as_str(), "lf") {
            Some(false)
        } else {
            None
        },
        None => None,
    }
}

/// Reads a file name with its optional `append` and line ending.
pub fn parse_general_file_info(args: &mut ArgStream) -> (r: Option<(String, bool, Option<bool>)>)
    ensures
        match file_info(old(args).rest()) {
            None => r is None && final(args).rest() == old(args).rest(),
            Some((f, a, c, n)) => r matches Some((file, append, crlf)) && file@ == f && append == a && crlf
                == c && final(args).rest() == old(args).rest().skip(n),
        },
{
    let ghost start = args.rest();
    proof {
        reveal_strlit("append");
        assert("append"@ =~= seq!['a', 'p', 'p', 'e', 'n', 'd']);
    }
    let file = match args.next() {
        Some(f) => f,
        None => {
            return None;
        },
    };
    assert(start.drop_first() =~= start.skip(1));
    let is_append = match args.peek() {
        Some(w) => same_word_exec(w.as_str(), "append"),
        None => false,
    };
    if is_append {
        args.next();
        assert(start.skip(1).drop_first() =~= start.skip(2));
        let c = ending_exec(args);
        if c.is_some() {
            args.next();
            assert(start.skip(2).drop_first() =~= start.skip(3));
        }
        Some((file, true, c))
    } else {
        let c = ending_exec(args);
        if c.is_some() {
            args.next();
            assert(start.skip(1).drop_first() =~= start.skip(2));
        }
        Some((file, false, c))
    }
}

/// The output command at the front of the words: `to file ...`, `to clip
/// [crlf|lf]`, `to out`; standard output when there is none.
pub fn parse_output(args: &mut ArgStream) -> (r: Result<Output, RpErr>)
    ensures
        old(args).rest().len() == 0 || !same_word(old(args).rest()[0], seq!['t', 'o']) ==> r == Ok::<
            Output,
            RpErr,
        >(Output::Out) && final(args).rest() == old(args).rest(),
        old(args).rest().len() > 0 && same_word(old(args).rest()[0], seq!['t', 'o']) ==> {
            let w = old(args).rest().drop_first();
            if w.len() > 0 && same_word(w[0], seq!['f', 'i', 'l', 'e']) {
                match file_info(w.drop_first()) {
                    None => r matches Err(RpErr::MissingArg { .. }),
                    Some((f, a, c, n)) => r matches Ok(Output::File { file, append, crlf }) && file@ == f
                        && append == a && crlf == c && final(args).rest() == w.drop_first().skip(n),
                }
            } else if w.len() > 0 && same_word(w[0], seq!['c', 'l', 'i', 'p']) {
                let e = if w.len() > 1 { ending_of(w[1]) } else { None };
                &&& r == Ok::<Output, RpErr>(Output::Clip { crlf: e })
                &&& final(args).rest() == w.skip(if e is Some { 2int } else { 1int })
            } else if w.len() > 0 && same_word(w[0], seq!['o', 'u', 't']) {
                r == Ok::<Output, RpErr>(Output::Out) && final(args).rest() == w.drop_first()
            } else {
                r == Ok::<Output, RpErr>(Output::Out) && final(args).rest() == w
            }
        },
        match args_output(old(args).rest()) {
            Some((v, rem)) => r matches Ok(o) && out_view(&o) == v && final(args).rest() == rem,
            None => r is Err,
        },
        r matches Err(e) ==> e is MissingArg,
{
    let ghost start = args.rest();
    proof {
        reveal_strlit("to");
        reveal_strlit("file");
        reveal_strlit("clip");
        reveal_strlit("out");
        assert("to"@ =~= seq!['t', 'o']);
        assert("file"@ =~= seq!['f', 'i', 'l', 'e']);
        assert("clip"@ =~= seq!['c', 'l', 'i', 'p']);
        assert("out"@ =~= seq!['o', 'u', 't']);
    }
    let is_to = match args.peek() {
        Some(w) => same_word_exec(w.as_str(), "to"),
        None => false,
    };
    if !is_to {
        return Ok(Output::Out);
    }
    args.next();
    let ghost w = args.rest();
    let kind: u8 = match args.peek() {
        Some(o) => if same_word_exec(o.as_str(), "file") {
            1
        } else if same_word_exec(o.as_str(), "clip") {
            2
        } else if same_word_exec(o.as_str(), "out") {
            3
        } else {
            0
        },
        None => 0,
    };
    if kind == 1 {
        args.next();
        match parse_general_file_info(args) {
            Some((file, append, crlf)) => Ok(Output::File { file, append, crlf }),
            None => Err(RpErr::MissingArg { cmd: String::from_str("to file"), arg: String::from_str("file") }),
        }
    } else if kind == 2 {
        args.next();
        assert(w.drop_first() =~= w.skip(1));
        let e = ending_exec(args);
        if e.is_some() {
            args.next();
            assert(w.skip(1).drop_first() =~= w.skip(2));
        }
        Ok(Output::Clip { crlf: e })
    } else if kind == 3 {
        args.next();
        Ok(Output::Out)
    } else {
        Ok(Output::Out)
    }
}

/// A count written as a word: a non-negative integer.
pub open spec fn count_word(w: Seq<char>) -> Option<usize> {
    match parse_i64_spec(w) {
        Some(v) => if v >= 0 {
            Some(v as usize)
        } else {
            None
        },
        None => None,
    }
}

/// How reading one step from the words ends.
pub enum WordOutcome {
    NoOp,
    MissingFrom,
    MissingTo,
    Step(OpView, int),
}

/// The step that the words `r` start with, and how many words it takes.
pub open spec fn word_op(r: Seq<Seq<char>>) -> WordOutcome {
    if r.len() == 0 {
        WordOutcome::NoOp
    } else if same_word(r[0], seq!['u', 'p', 'p', 'e', 'r']) {
        WordOutcome::Step(OpView::Case(CaseArg::Upper), 1)
    } else if same_word(r[0], seq!['l', 'o', 'w', 'e', 'r']) {
        WordOutcome::Step(OpView::Case(CaseArg::Lower), 1)
    } else if same_word(r[0], seq!['c', 'a', 's', 'e']) {
        WordOutcome::Step(OpView::Case(CaseArg::Switch), 1)
    } else if same_word(r[0], seq!['r', 'e', 'p', 'l', 'a', 'c', 'e']) {
        if r.len() < 2 {
            WordOutcome::MissingFrom
        } else if r.len() < 3 {
            WordOutcome::MissingTo
        } else {
            let (count, k) = if r.len() > 3 && count_word(r[3]) is Some {
                (count_word(r[3]), 4int)
            } else {
                (None, 3int)
            };
            let (nc, m) = if r.len() > k && same_word(r[k], seq!['n', 'o', 'c', 'a', 's', 'e']) {
                (true, k + 1)
            } else {
                (false, k)
            };
            WordOutcome::Step(OpView::Replace(r[1], r[2], count, nc), m)
        }
    } else if same_word(r[0], seq!['u', 'n', 'i', 'q']) {
        if r.len() > 1 && same_word(r[1], seq!['n', 'o', 'c', 'a', 's', 'e']) {
            WordOutcome::Step(OpView::Uniq(true), 2)
        } else {
            WordOutcome::Step(OpView::Uniq(false), 1)
        }
    } else if same_word(r[0], seq!['p', 'e', 'e', 'k']) {
        WordOutcome::Step(OpView::Peek(None), 1)
    } else {
        WordOutcome::NoOp
    }
}

fn next_is(args: &ArgStream, kw: &str) -> (r: bool)
    ensures
        r == (args.rest().len() > 0 && same_word(args.rest()[0], kw@)),
{
    match args.peek() {
        Some(w) => same_word_exec(w.as_str(), kw),
        None => false,
    }
}

/// Reads one step of the pipeline from the words, if they start with one.
pub fn parse_op(args: &mut ArgStream) -> (r: Result<Option<Op>, RpErr>)
    ensures
        match word_op(old(args).rest()) {
            WordOutcome::NoOp => r matches Ok(None) && final(args).rest() == old(args).rest(),
            WordOutcome::MissingFrom => r matches Err(RpErr::MissingArg { .. }),
            WordOutcome::MissingTo => r matches Err(RpErr::MissingArg { .. }),
            WordOutcome::Step(v, n) => r matches Ok(Some(op)) && crate::command::op_view(&op) == v
                && final(args).rest() == old(args).rest().skip(n),
        },
        r matches Err(e) ==> e is MissingArg,
{
    let ghost start = args.rest();
    proof {
        reveal_strlit("upper");
        reveal_strlit("lower");
        reveal_strlit("case");
        reveal_strlit("replace");
        reveal_strlit("uniq");
        reveal_strlit("peek");
        reveal_strlit("nocase");
        assert("upper"@ =~= seq!['u', 'p', 'p', 'e', 'r']);
        assert("lower"@ =~= seq!['l', 'o', 'w', 'e', 'r']);
        assert("case"@ =~= seq!['c', 'a', 's', 'e']);
        assert("replace"@ =~= seq!['r', 'e', 'p', 'l', 'a', 'c', 'e']);
        assert("uniq"@ =~= seq!['u', 'n', 'i', 'q']);
        assert("peek"@ =~= seq!['p', 'e', 'e', 'k']);
        assert("nocase"@ =~= seq!['n', 'o', 'c', 'a', 's', 'e']);
    }
    if next_is(args, "upper") {
        args.next();
        return Ok(Some(Op::Case(CaseArg::Upper)));
    }
    if next_is(args, "lower") {
        args.next();
        return Ok(Some(Op::Case(CaseArg::Lower)));
    }
    if next_is(args, "case") {
        args.next();
        return Ok(Some(Op::Case(CaseArg::Switch)));
    }
    if next_is(args, "replace") {
        args.next();
        assert(start.drop_first() =~= start.skip(1));
        let from = match args.next() {
            Some(f) => f,
            None => {
                return Err(RpErr::MissingArg { cmd: String::from_str("replace"), arg: String::from_str("from") });
            },
        };
        assert(start.skip(1).drop_first() =~= start.skip(2));
        let to = match args.next() {
            Some(t) => t,
            None => {
                return Err(RpErr::MissingArg { cmd: String::from_str("replace"), arg: String::from_str("to") });
            },
        };
        assert(start.skip(2).drop_first() =~= start.skip(3));
        let count = match args.peek() {
            Some(w) => {
                let c = chars_of(w.as_str());
                match parse_integer(&c) {
                    Some(v) => if v >= 0 {
                        Some(v as usize)
                    } else {
                        None
                    },
                    None => None,
                }
            },
            None => None,
        };
        let ghost k: int = if count is Some { 4 } else { 3 };
        if count.is_some() {
            args.next();
            assert(start.skip(3).drop_first() =~= start.skip(4));
        }
        let nocase = next_is(args, "nocase");
        if nocase {
            args.next();
            assert(start.skip(k).drop_first() =~= start.skip(k + 1));
        }
        return Ok(Some(Op::Replace { from, to, count, nocase }));
    }
    if next_is(args, "uniq") {
        args.next();
        assert(start.drop_first() =~= start.skip(1));
        let nocase = next_is(args, "nocase");
        if nocase {
            args.next();
            assert(start.skip(1).drop_first() =~= start.skip(2));
        }
        return Ok(Some(Op::Uniq { nocase }));
    }
    if next_is(args, "peek") {
        args.next();
        return Ok(Some(Op::Peek(PeekArg::StdOut)));
    }
    Ok(None)
}

/// The steps the words start with, one after another: their views, the words
/// left after them, and whether reading stopped at a step missing an argument.
pub open spec fn word_ops(r: Seq<Seq<char>>) -> (Seq<OpView>, Seq<Seq<char>>, bool)
    decreases r.len(),
{
    match word_op(r) {
        WordOutcome::Step(v, n) => if 0 < n <= r.len() {
            let (vs, rem, missing) = word_ops(r.skip(n));
            (seq![v] + vs, rem, missing)
        } else {
            (Seq::empty(), r, false)
        },
        WordOutcome::NoOp => (Seq::empty(), r, false),
        _ => (Seq::empty(), r, true),
    }
}

/// Reads steps of the pipeline from the words for as long as they start with one.
pub fn parse_ops(args: &mut ArgStream) -> (r: Result<Vec<Op>, RpErr>)
    ensures
        r is Err <==> word_ops(old(args).rest()).2,
        r matches Err(e) ==> e is MissingArg,
        r matches Ok(ops) ==> op_views(ops@) == word_ops(old(args).rest()).0 && final(args).rest() == word_ops(
            old(args).rest(),
        ).1,
{
    let ghost start = args.rest();
    let mut ops: Vec<Op> = Vec::new();
    loop
        invariant
            args.rest().len() <= start.len(),
            start == old(args).rest(),
            word_ops(start) == (op_views(ops@) + word_ops(args.rest()).0, word_ops(args.rest()).1, word_ops(
                args.rest(),
            ).2),
        decreases args.rest().len(),
    {
        let ghost cur = args.rest();
        match parse_op(args) {
            Ok(Some(op)) => {
                let ghost before = op_views(ops@);
                let ghost v = op_view(&op);
                ops.push(op);
                proof {
                    assert(op_views(ops@) =~= before.push(v));
                    assert(word_ops(cur).0 == seq![v] + word_ops(args.rest()).0);
                    assert(before + (seq![v] + word_ops(args.rest()).0) =~= op_views(ops@) + word_ops(
                        args.rest(),
                    ).0);
                }
            },
            Ok(None) => {
                assert(op_views(ops@) + Seq::<OpView>::empty() =~= op_views(ops@));
                return Ok(ops);
            },
            Err(e) => {
                return Err(e);
            },
        }
    }
}

proof fn lemma_input_words_differ(w: Seq<char>)
    ensures
        !(same_word(w, seq!['i', 'n']) && same_word(w, seq!['c', 'l', 'i', 'p'])),
        !(same_word(w, seq!['i', 'n']) && same_word(w, seq!['f', 'i', 'l', 'e'])),
        !(same_word(w, seq!['i', 'n']) && same_word(w, seq!['o', 'f'])),
        !(same_word(w, seq!['c', 'l', 'i', 'p']) && same_word(w, seq!['f', 'i', 'l', 'e'])),
        !(same_word(w, seq!['c', 'l', 'i', 'p']) && same_word(w, seq!['o', 'f'])),
        !(same_word(w, seq!['f', 'i', 'l', 'e']) && same_word(w, seq!['o', 'f'])),
{
    let a = lower_seq(seq!['i', 'n']);
    let b = lower_seq(seq!['c', 'l', 'i', 'p']);
    let c = lower_seq(seq!['f', 'i', 'l', 'e']);
    let d = lower_seq(seq!['o', 'f']);
    assert(a[0] == 'i');
    assert(b[0] == 'c');
    assert(c[0] == 'f');
    assert(d[0] == 'o');
    assert(a.len() == 2 && b.len() == 4 && c.len() == 4 && d.len() == 2);
}

/// The input command the words start with, and the words after it; `None`
/// when its arguments are malformed. Without one, standard input, reading nothing.
pub open spec fn args_input(r: Seq<Seq<char>>) -> Option<(InputView, Seq<Seq<char>>)> {
    if r.len() == 0 {
        Some((InputView::StdIn, r))
    } else if same_word(r[0], seq!['i', 'n']) {
        Some((InputView::StdIn, r.drop_first()))
    } else if same_word(r[0], seq!['c', 'l', 'i', 'p']) {
        Some((InputView::Clip, r.drop_first()))
    } else if same_word(r[0], seq!['f', 'i', 'l', 'e']) {
        match arg_values(r.drop_first()) {
            ArgOutcome::Values(vs, n) => Some((InputView::File(vs), r.drop_first().skip(n))),
            _ => None,
        }
    } else if same_word(r[0], seq!['o', 'f']) {
        match arg_values(r.drop_first()) {
            ArgOutcome::Values(vs, n) => Some((InputView::Of(vs), r.drop_first().skip(n))),
            _ => None,
        }
    } else {
        Some((InputView::StdIn, r))
    }
}

/// The output command the words start with, and the words after it; `None`
/// when `to file` lacks its file. Without one, standard output, reading nothing.
pub open spec fn args_output(r: Seq<Seq<char>>) -> Option<(OutView, Seq<Seq<char>>)> {
    if r.len() == 0 || !same_word(r[0], seq!['t', 'o']) {
        Some((OutView::Out, r))
    } else {
        let w = r.drop_first();
        if w.len() > 0 && same_word(w[0], seq!['f', 'i', 'l', 'e']) {
            match file_info(w.drop_first()) {
                None => None,
                Some((f, a, c, n)) => Some((OutView::File(f, a, c), w.drop_first().skip(n))),
            }
        } else if w.len() > 0 && same_word(w[0], seq!['c', 'l', 'i', 'p']) {
            let e = if w.len() > 1 { ending_of(w[1]) } else { None };
            Some((OutView::Clip(e), w.skip(if e is Some { 2int } else { 1int })))
        } else if w.len() > 0 && same_word(w[0], seq!['o', 'u', 't']) {
            Some((OutView::Out, w.drop_first()))
        } else {
            Some((OutView::Out, w))
        }
    }
}

/// Reads the input command at the front of the words: `in`, `file <paths>`,
/// `clip` or `of <values>`; standard input when none is written.
pub fn parse_input(args: &mut ArgStream) -> (r: Result<Input, RpErr>)
    ensures
        old(args).rest().len() == 0 ==> r == Ok::<Input, RpErr>(Input::StdIn) && final(args).rest() == old(
            args,
        ).rest(),
        old(args).rest().len() > 0 && same_word(old(args).rest()[0], seq!['i', 'n']) ==> r == Ok::<
            Input,
            RpErr,
        >(Input::StdIn) && final(args).rest() == old(args).rest().drop_first(),
        old(args).rest().len() > 0 && same_word(old(args).rest()[0], seq!['c', 'l', 'i', 'p']) && !same_word(
            old(args).rest()[0],
            seq!['i', 'n'],
        ) ==> r == Ok::<Input, RpErr>(Input::Clip) && final(args).rest() == old(args).rest().drop_first(),
        old(args).rest().len() > 0 && same_word(old(args).rest()[0], seq!['f', 'i', 'l', 'e']) ==> match arg_values(
            old(args).rest().drop_first(),
        ) {
            ArgOutcome::Values(vs, n) => r matches Ok(Input::File { files }) && texts(files@) == vs
                && final(args).rest() == old(args).rest().drop_first().skip(n),
            _ => r is Err,
        },
        old(args).rest().len() > 0 && same_word(old(args).rest()[0], seq!['o', 'f']) ==> match arg_values(
            old(args).rest().drop_first(),
        ) {
            ArgOutcome::Values(vs, n) => r matches Ok(Input::Of { values }) && texts(values@) == vs
                && final(args).rest() == old(args).rest().drop_first().skip(n),
            _ => r is Err,
        },
        old(args).rest().len() > 0 && !same_word(old(args).rest()[0], seq!['i', 'n']) && !same_word(
            old(args).rest()[0],
            seq!['c', 'l', 'i', 'p'],
        ) && !same_word(old(args).rest()[0], seq!['f', 'i', 'l', 'e']) && !same_word(
            old(args).rest()[0],
            seq!['o', 'f'],
        ) ==> r == Ok::<Input, RpErr>(Input::StdIn) && final(args).rest() == old(args).rest(),
        r matches Err(e) ==> !(e is UnknownArgs),
        match args_input(old(args).rest()) {
            Some((v, rem)) => r matches Ok(i) && input_view(&i) == v && final(args).rest() == rem,
            None => r is Err,
        },
{
    proof {
        if args.rest().len() > 0 {
            lemma_input_words_differ(args.rest()[0]);
        }
        reveal_strlit("in");
        reveal_strlit("clip");
        reveal_strlit("file");
        reveal_strlit("of");
        assert("in"@ =~= seq!['i', 'n']);
        assert("clip"@ =~= seq!['c', 'l', 'i', 'p']);
        assert("file"@ =~= seq!['f', 'i', 'l', 'e']);
        assert("of"@ =~= seq!['o', 'f']);
    }
    if next_is(args, "in") {
        args.next();
        Ok(Input::StdIn)
    } else if next_is(args, "clip") {
        args.next();
        Ok(Input::Clip)
    } else if next_is(args, "file") {
        args.next();
        match parse_arg_or_arg1(args, "file", "files") {
            Ok(files) => Ok(Input::File { files }),
            Err(e) => Err(e),
        }
    } else if next_is(args, "of") {
        args.next();
        match parse_arg_or_arg1(args, "of", "values") {
            Ok(values) => Ok(Input::Of { values }),
            Err(e) => Err(e),
        }
    } else {
        Ok(Input::StdIn)
    }
}

/// Reads a whole pipeline from the words: the input, the steps, the output;
/// words left over after them are an error.
pub fn parse_args(args: ArgStream) -> (r: Result<(Input, Vec<Op>, Output), RpErr>)
    ensures
        match args_input(args.rest()) {
            None => r is Err && !(r matches Err(RpErr::UnknownArgs { .. })),
            Some((iv, r1)) => {
                let (vs, r2, missing) = word_ops(r1);
                if missing {
                    r matches Err(e) && e is MissingArg
                } else {
                    match args_output(r2) {
                        None => r matches Err(e) && e is MissingArg,
                        Some((ov, r3)) => if r3.len() == 0 {
                            r matches Ok((i, ops, o)) && input_view(&i) == iv && op_views(ops@) == vs
                                && out_view(&o) == ov
                        } else {
                            r matches Err(RpErr::UnknownArgs { args: left }) && texts(left@) == r3
                        },
                    }
                }
            },
        },
{
    let mut args = args;
    let input = match parse_input(&mut args) {
        Ok(i) => i,
        Err(e) => {
            return Err(e);
        },
    };
    let ops = match parse_ops(&mut args) {
        Ok(o) => o,
        Err(e) => {
            return Err(e);
        },
    };
    let output = match parse_output(&mut args) {
        Ok(o) => o,
        Err(e) => {
            return Err(e);
        },
    };
    let left = args.remaining();
    if left.len() > 0 {
        Err(RpErr::UnknownArgs { args: left })
    } else {
        Ok((input, ops, output))
    }
}

} // verus!
