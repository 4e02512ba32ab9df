use vstd::prelude::*;

use crate::condition::{is_white, is_white_exec};
use crate::pipeline::Input;
use crate::num::{is_digit, parse_i64_spec, parse_integer};
use crate::op::texts;
use crate::text::{ascii_lower, chars_of, string_of, to_ascii_lower};

verus! {

pub open spec fn is_space(c: char) -> bool {
    c == ' ' || c == '\t'
}

/// The end of the run of spaces and tabs that starts at `i`.
pub open spec fn spaces_end(t: Seq<char>, i: int) -> int
    decreases t.len() - i,
{
    if 0 <= i < t.len() && is_space(t[i]) {
        spaces_end(t, i + 1)
    } else {
        i
    }
}

/// At least one space or tab at `i`: where the run ends.
pub open spec fn space1(t: Seq<char>, i: int) -> Option<int> {
    if 0 <= i < t.len() && is_space(t[i]) {
        Some(spaces_end(t, i))
    } else {
        None
    }
}

/// Whether the keyword `kw` stands at `i`, ASCII case ignored.
pub open spec fn tag_at(t: Seq<char>, i: int, kw: Seq<char>) -> bool {
    &&& 0 <= i
    &&& i + kw.len() <= t.len()
    &&& forall|k: int| 0 <= k < kw.len() ==> ascii_lower(#[trigger] t[i + k]) == ascii_lower(kw[k])
}

pub open spec fn is_quote(c: char) -> bool {
    c == '"' || c == '\''
}

/// The first position from `i` on that holds `q`.
pub open spec fn find_char(t: Seq<char>, i: int, q: char) -> Option<int>
    decreases t.len() - i,
{
    if i < 0 || i >= t.len() {
        None
    } else if t[i] == q {
        Some(i)
    } else {
        find_char(t, i + 1, q)
    }
}

pub open spec fn word_char(c: char) -> bool {
    !is_white(c) && !is_quote(c)
}

/// The end of the run of characters that may stand in an unquoted argument.
pub open spec fn word_end(t: Seq<char>, i: int) -> int
    decreases t.len() - i,
{
    if 0 <= i < t.len() && word_char(t[i]) {
        word_end(t, i + 1)
    } else {
        i
    }
}

/// A written bracket `\[` or `\]` stands for the bracket itself.
pub open spec fn unescaped(w: Seq<char>) -> Seq<char> {
    if w == seq!['\\', '['] || w == seq!['\\', ']'] {
        w.drop_first()
    } else {
        w
    }
}

/// One argument at `i`: a text in matching quotes, or a run of characters
/// without white space or quotes that is not a lone bracket.
pub open spec fn arg_at(t: Seq<char>, i: int) -> Option<(Seq<char>, int)> {
    if 0 <= i < t.len() && is_quote(t[i]) {
        match find_char(t, i + 1, t[i]) {
            Some(j) => Some((t.subrange(i + 1, j), j + 1)),
            None => None,
        }
    } else {
        let j = word_end(t, i);
        let w = t.subrange(i, j);
        if 0 <= i && j > i && w != seq!['['] && w != seq![']'] {
            Some((unescaped(w), j))
        } else {
            None
        }
    }
}

/// `cmd arg `: the keyword, spaces, one argument, spaces.
pub open spec fn cmd_arg(t: Seq<char>, i: int, cmd: Seq<char>) -> Option<(Seq<char>, int)> {
    if !tag_at(t, i, cmd) {
        None
    } else {
        match space1(t, i + cmd.len()) {
            None => None,
            Some(a) => match arg_at(t, a) {
                None => None,
                Some((v, b)) => match space1(t, b) {
                    None => None,
                    Some(c) => Some((v, c)),
                },
            },
        }
    }
}

/// The arguments of a bracketed list from `i` up to and including its `]`.
pub open spec fn list_items(t: Seq<char>, i: int) -> Option<(Seq<Seq<char>>, int)>
    decreases t.len() - i,
{
    if i < 0 || i >= t.len() {
        None
    } else if t[i] == ']' {
        Some((Seq::empty(), i + 1))
    } else {
        match arg_at(t, i) {
            None => None,
            Some((v, b)) => match space1(t, b) {
                None => None,
                Some(c) => if c <= i || c > t.len() {
                    None
                } else {
                    match list_items(t, c) {
                        None => None,
                        Some((rest, e)) => Some((seq![v] + rest, e)),
                    }
                },
            },
        }
    }
}

/// `cmd [ arg ... ] `: the keyword and a bracketed list of at least one argument.
pub open spec fn cmd_args1(t: Seq<char>, i: int, cmd: Seq<char>) -> Option<(Seq<Seq<char>>, int)> {
    if !tag_at(t, i, cmd) {
        None
    } else {
        match space1(t, i + cmd.len()) {
            None => None,
            Some(a) => if a < t.len() && t[a] == '[' {
                match space1(t, a + 1) {
                    None => None,
                    Some(b) => match list_items(t, b) {
                        None => None,
                        Some((vs, c)) => if vs.len() == 0 {
                            None
                        } else {
                            match space1(t, c) {
                                None => None,
                                Some(d) => Some((vs, d)),
                            }
                        },
                    },
                }
            } else {
                None
            },
        }
    }
}

/// One argument, or a bracketed list of them.
pub open spec fn cmd_arg_or_args1(t: Seq<char>, i: int, cmd: Seq<char>) -> Option<(Seq<Seq<char>>, int)> {
    match cmd_arg(t, i, cmd) {
        Some((v, e)) => Some((seq![v], e)),
        None => cmd_args1(t, i, cmd),
    }
}

/// A keyword followed by spaces.
pub open spec fn cmd_alone(t: Seq<char>, i: int, cmd: Seq<char>) -> Option<int> {
    if tag_at(t, i, cmd) {
        space1(t, i + cmd.len())
    } else {
        None
    }
}

pub(crate) fn space1_exec(t: &Vec<char>, i: usize) -> (r: Option<usize>)
    requires
        i <= t@.len(),
    ensures
        r == match space1(t@, i as int) {
            Some(e) => Some(e as usize),
            None => None::<usize>,
        },
        r matches Some(e) ==> i < e <= t@.len() && e == space1(t@, i as int)->Some_0,
{
    if i >= t.len() || !(t[i] == ' ' || t[i] == '\t') {
        return None;
    }
    let mut j = i;
    while j < t.len() && (t[j] == ' ' || t[j] == '\t')
        invariant
            i <= j <= t@.len(),
            j > i || (j == i && is_space(t@[i as int])),
            spaces_end(t@, i as int) == spaces_end(t@, j as int),
        decreases t@.len() - j,
    {
        j += 1;
    }
    assert(j > i);
    Some(j)
}

pub(crate) fn tag_exec(t: &Vec<char>, i: usize, kw: &Vec<char>) -> (r: bool)
    requires
        i <= t@.len(),
    ensures
        r == tag_at(t@, i as int, kw@),
{
    if kw.len() > t.len() - i {
        return false;
    }
    let mut k: usize = 0;
    while k < kw.len()
        invariant
            i + kw@.len() <= t@.len(),
            t@.len() <= usize::MAX,
            0 <= k <= kw@.len(),
            forall|j: int| 0 <= j < k ==> ascii_lower(#[trigger] t@[i + j]) == ascii_lower(kw@[j]),
        decreases kw@.len() - k,
    {
        if to_ascii_lower(t[i + k]) != to_ascii_lower(kw[k]) {
            return false;
        }
        k += 1;
    }
    true
}

fn find_char_exec(t: &Vec<char>, i: usize, q: char) -> (r: Option<usize>)
    requires
        i <= t@.len(),
    ensures
        r == match find_char(t@, i as int, q) {
            Some(j) => Some(j as usize),
            None => None::<usize>,
        },
        r matches Some(j) ==> i <= j < t@.len() && find_char(t@, i as int, q) == Some(j as int),
        r is None ==> find_char(t@, i as int, q) is None,
{
    let mut j = i;
    while j < t.len()
        invariant
            i <= j <= t@.len(),
            find_char(t@, i as int, q) == find_char(t@, j as int, q),
            forall|k: int| i <= k < j ==> t@[k] != q,
        decreases t@.len() - j,
    {
        if t[j] == q {
            return Some(j);
        }
        j += 1;
    }
    None
}

fn word_end_exec(t: &Vec<char>, i: usize) -> (r: usize)
    requires
        i <= t@.len(),
    ensures
        r == word_end(t@, i as int),
        i <= r <= t@.len(),
{
    let mut j = i;
    while j < t.len() && !is_white_exec(t[j]) && t[j] != '"' && t[j] != '\''
        invariant
            i <= j <= t@.len(),
            word_end(t@, i as int) == word_end(t@, j as int),
        decreases t@.len() - j,
    {
        j += 1;
    }
    j
}

pub(crate) fn slice_of(t: &Vec<char>, a: usize, b: usize) -> (r: Vec<char>)
    requires
        a <= b <= t@.len(),
    ensures
        r@ == t@.subrange(a as int, b as int),
{
    let mut out: Vec<char> = Vec::new();
    let mut i = a;
    while i < b
        invariant
            a <= i <= b <= t@.len(),
            out@ == t@.subrange(a as int, i as int),
        decreases b - i,
    {
        out.push(t[i]);
        i += 1;
        assert(out@ =~= t@.subrange(a as int, i as int));
    }
    out
}

pub(crate) fn arg_exec(t: &Vec<char>, i: usize) -> (r: Option<(String, usize)>)
    requires
        i <= t@.len(),
    ensures
        r is Some <==> arg_at(t@, i as int) is Some,
        r matches Some((s, j)) ==> arg_at(t@, i as int) == Some((s@, j as int)),
        r matches Some((_, j)) ==> i < j <= t@.len(),
{
    if i < t.len() && (t[i] == '"' || t[i] == '\'') {
        match find_char_exec(t, i + 1, t[i]) {
            Some(j) => {
                let v = string_of(&slice_of(t, i + 1, j));
                assert(arg_at(t@, i as int) == Some((v@, (j + 1) as int)));
                Some((v, j + 1))
            },
            None => None,
        }
    } else {
        let j = word_end_exec(t, i);
        if j == i {
            return None;
        }
        let w = slice_of(t, i, j);
        if w.len() == 1 && (w[0] == '[' || w[0] == ']') {
            proof {
                if w[0] == '[' {
                    assert(w@ =~= seq!['[']);
                } else {
                    assert(w@ =~= seq![']']);
                }
            }
            return None;
        }
        proof {
            if w@.len() == 1 {
                assert(w@ != seq!['[']) by {
                    assert(seq!['['][0] == '[');
                }
                assert(w@ != seq![']']) by {
                    assert(seq![']'][0] == ']');
                }
            } else {
                assert(w@.len() != seq!['['].len());
                assert(w@.len() != seq![']'].len());
            }
        }
        if w.len() == 2 && w[0] == '\\' && (w[1] == '[' || w[1] == ']') {
            let mut u: Vec<char> = Vec::new();
            u.push(w[1]);
            proof {
                if w[1] == '[' {
                    assert(w@ =~= seq!['\\', '[']);
                } else {
                    assert(w@ =~= seq!['\\', ']']);
                }
                assert(u@ =~= w@.drop_first());
            }
            let v = string_of(&u);
            assert(arg_at(t@, i as int) == Some((v@, j as int)));
            Some((v, j))
        } else {
            proof {
                if w@.len() == 2 {
                    assert(w@ != seq!['\\', '[']) by {
                        if w@ == seq!['\\', '['] {
                            assert(w@[0] == '\\' && w@[1] == '[');
                        }
                    }
                    assert(w@ != seq!['\\', ']']) by {
                        if w@ == seq!['\\', ']'] {
                            assert(w@[0] == '\\' && w@[1] == ']');
                        }
                    }
                } else {
                    assert(w@.len() != seq!['\\', '['].len());
                    assert(w@.len() != seq!['\\', ']'].len());
                }
            }
            let v = string_of(&w);
            assert(unescaped(w@) == w@);
            assert(arg_at(t@, i as int) == Some((v@, j as int)));
            Some((v, j))
        }
    }
}

fn cmd_arg_exec(t: &Vec<char>, i: usize, cmd: &Vec<char>) -> (r: Option<(String, usize)>)
    requires
        i <= t@.len(),
    ensures
        r is Some <==> cmd_arg(t@, i as int, cmd@) is Some,
        r matches Some((s, j)) ==> cmd_arg(t@, i as int, cmd@) == Some((s@, j as int)) && j <= t@.len(),
{
    let n = t.len();
    if !tag_exec(t, i, cmd) {
        return None;
    }
    assert(i + cmd@.len() <= n);
    let a = match space1_exec(t, i + cmd.len()) {
        Some(a) => a,
        None => {
            return None;
        },
    };
    let (v, b) = match arg_exec(t, a) {
        Some(p) => p,
        None => {
            return None;
        },
    };
    match space1_exec(t, b) {
        Some(c) => Some((v, c)),
        None => None,
    }
}

fn list_items_exec(t: &Vec<char>, i: usize) -> (r: Option<(Vec<String>, usize)>)
    requires
        i <= t@.len(),
    ensures
        r is Some <==> list_items(t@, i as int) is Some,
        r matches Some((vs, j)) ==> list_items(t@, i as int) == Some((texts(vs@), j as int)) && j <= t@.len(),
    decreases t@.len() - i,
{
    if i >= t.len() {
        return None;
    }
    if t[i] == ']' {
        let v: Vec<String> = Vec::new();
        assert(texts(v@) =~= Seq::<Seq<char>>::empty());
        return Some((v, i + 1));
    }
    let (v, b) = match arg_exec(t, i) {
        Some(p) => p,
        None => {
            return None;
        },
    };
    let c = match space1_exec(t, b) {
        Some(c) => c,
        None => {
            return None;
        },
    };
    match list_items_exec(t, c) {
        None => None,
        Some((rest, e)) => {
            let mut out: Vec<String> = Vec::new();
            out.push(v);
            let mut k: usize = 0;
            let ghost first = out@[0]@;
            let mut rest = rest;
            let ghost rv = texts(rest@);
            assert(texts(out@) =~= seq![first]);
            while k < rest.len()
                invariant
                    0 <= k <= rest@.len(),
                    rv == texts(rest@),
                    texts(out@) == seq![first] + rv.take(k as int),
                decreases rest@.len() - k,
            {
                let ghost prev = texts(out@);
                out.push(rest[k].clone());
                assert(texts(out@) =~= prev.push(rv[k as int]));
                k += 1;
                assert(texts(out@) =~= seq![first] + rv.take(k as int));
            }
            assert(rv.take(rv.len() as int) =~= rv);
            Some((out, e))
        },
    }
}

fn cmd_args1_exec(t: &Vec<char>, i: usize, cmd: &Vec<char>) -> (r: Option<(Vec<String>, usize)>)
    requires
        i <= t@.len(),
    ensures
        r is Some <==> cmd_args1(t@, i as int, cmd@) is Some,
        r matches Some((vs, j)) ==> cmd_args1(t@, i as int, cmd@) == Some((texts(vs@), j as int)) && j <= t@.len(),
{
    let n = t.len();
    if !tag_exec(t, i, cmd) {
        return None;
    }
    assert(i + cmd@.len() <= n);
    let a = match space1_exec(t, i + cmd.len()) {
        Some(a) => a,
        None => {
            return None;
        },
    };
    if !(a < t.len() && t[a] == '[') {
        return None;
    }
    let b = match space1_exec(t, a + 1) {
        Some(b) => b,
        None => {
            return None;
        },
    };
    let (vs, c) = match list_items_exec(t, b) {
        Some(p) => p,
        None => {
            return None;
        },
    };
    if vs.len() == 0 {
        return None;
    }
    match space1_exec(t, c) {
        Some(d) => Some((vs, d)),
        None => None,
    }
}

fn cmd_arg_or_args1_exec(t: &Vec<char>, i: usize, cmd: &Vec<char>) -> (r: Option<(Vec<String>, usize)>)
    requires
        i <= t@.len(),
    ensures
        r is Some <==> cmd_arg_or_args1(t@, i as int, cmd@) is Some,
        r matches Some((vs, j)) ==> cmd_arg_or_args1(t@, i as int, cmd@) == Some((texts(vs@), j as int)) && j <= t@.len(),
{
    match cmd_arg_exec(t, i, cmd) {
        Some((v, e)) => {
            let mut out: Vec<String> = Vec::new();
            out.push(v);
            assert(texts(out@) =~= seq![out@[0]@]);
            Some((out, e))
        },
        None => cmd_args1_exec(t, i, cmd),
    }
}

pub(crate) fn cmd_alone_exec(t: &Vec<char>, i: usize, cmd: &Vec<char>) -> (r: Option<usize>)
    requires
        i <= t@.len(),
    ensures
        r is Some <==> cmd_alone(t@, i as int, cmd@) is Some,
        r matches Some(j) ==> cmd_alone(t@, i as int, cmd@) == Some(j as int) && j <= t@.len(),
{
    let n = t.len();
    if tag_exec(t, i, cmd) {
        assert(i + cmd@.len() <= n);
        space1_exec(t, i + cmd.len())
    } else {
        None
    }
}

/// What a parse leaves over: the text from `e` on.
pub open spec fn rest_of(t: Seq<char>, e: int) -> Seq<char> {
    t.subrange(e, t.len() as int)
}

pub(crate) fn rest_exec(t: &Vec<char>, e: usize) -> (r: String)
    requires
        e <= t@.len(),
    ensures
        r@ == rest_of(t@, e as int),
{
    string_of(&slice_of(t, e, t.len()))
}

pub(crate) fn keyword(k: &str) -> (r: Vec<char>)
    ensures
        r@ == k@,
{
    chars_of(k)
}

pub open spec fn kw_in() -> Seq<char> {
    seq!['i', 'n']
}

pub open spec fn kw_file() -> Seq<char> {
    seq!['f', 'i', 'l', 'e']
}

pub open spec fn kw_clip() -> Seq<char> {
    seq!['c', 'l', 'i', 'p']
}

pub open spec fn kw_of() -> Seq<char> {
    seq!['o', 'f']
}

/// `in `: records from standard input.
pub fn parse_std_in(input: &str) -> (r: Result<(String, Input), String>)
    ensures
        r is Ok <==> cmd_alone(input@, 0, kw_in()) is Some,
        r matches Ok((rest, i)) ==> i == Input::StdIn && rest@ == rest_of(
            input@,
            cmd_alone(input@, 0, kw_in())->Some_0,
        ),
{
    let t = chars_of(input);
    let kw = keyword("in");
    proof {
        reveal_strlit("in");
        assert(kw@ =~= kw_in());
    }
    match cmd_alone_exec(&t, 0, &kw) {
        Some(e) => Ok((rest_exec(&t, e), Input::StdIn)),
        None => Err(String::from_str("expected `in`")),
    }
}

/// `clip `: records from the clipboard.
pub fn parse_clip(input: &str) -> (r: Result<(String, Input), String>)
    ensures
        r is Ok <==> cmd_alone(input@, 0, kw_clip()) is Some,
        r matches Ok((rest, i)) ==> i == Input::Clip && rest@ == rest_of(
            input@,
            cmd_alone(input@, 0, kw_clip())->Some_0,
        ),
{
    let t = chars_of(input);
    let kw = keyword("clip");
    proof {
        reveal_strlit("clip");
        assert(kw@ =~= kw_clip());
    }
    match cmd_alone_exec(&t, 0, &kw) {
        Some(e) => Ok((rest_exec(&t, e), Input::Clip)),
        None => Err(String::from_str("expected `clip`")),
    }
}

/// `file <path> ` or `file [ <path> ... ] `: records from files.
pub fn parse_file(input: &str) -> (r: Result<(String, Input), String>)
    ensures
        r is Ok <==> cmd_arg_or_args1(input@, 0, kw_file()) is Some,
        r matches Ok((rest, i)) ==> {
            let (vs, e) = cmd_arg_or_args1(input@, 0, kw_file())->Some_0;
            &&& i matches Input::File { files } && texts(files@) == vs
            &&& rest@ == rest_of(input@, e)
        },
{
    let t = chars_of(input);
    let kw = keyword("file");
    proof {
        reveal_strlit("file");
        assert(kw@ =~= kw_file());
    }
    match cmd_arg_or_args1_exec(&t, 0, &kw) {
        Some((files, e)) => Ok((rest_exec(&t, e), Input::File { files })),
        None => Err(String::from_str("expected `file` and its paths")),
    }
}

/// `of <value> ` or `of [ <value> ... ] `: the records written out.
pub fn parse_of(input: &str) -> (r: Result<(String, Input), String>)
    ensures
        r is Ok <==> cmd_arg_or_args1(input@, 0, kw_of()) is Some,
        r matches Ok((rest, i)) ==> {
            let (vs, e) = cmd_arg_or_args1(input@, 0, kw_of())->Some_0;
            &&& i matches Input::Of { values } && texts(values@) == vs
            &&& rest@ == rest_of(input@, e)
        },
{
    let t = chars_of(input);
    let kw = keyword("of");
    proof {
        reveal_strlit("of");
        assert(kw@ =~= kw_of());
    }
    match cmd_arg_or_args1_exec(&t, 0, &kw) {
        Some((values, e)) => Ok((rest_exec(&t, e), Input::Of { values })),
        None => Err(String::from_str("expected `of` and its values")),
    }
}

/// The end of the run of decimal digits that starts at `i`.
pub open spec fn digits_end(t: Seq<char>, i: int) -> int
    decreases t.len() - i,
{
    if 0 <= i < t.len() && is_digit(t[i]) {
        digits_end(t, i + 1)
    } else {
        i
    }
}

/// An integer at `i`: an optional sign and at least one digit, within the range of `i64`.
pub open spec fn int_token(t: Seq<char>, i: int) -> Option<(i64, int)> {
    let d = if 0 <= i < t.len() && (t[i] == '-' || t[i] == '+') { i + 1 } else { i };
    let e = digits_end(t, d);
    if 0 <= i && e > d {
        match parse_i64_spec(t.subrange(i, e)) {
            Some(v) => Some((v, e)),
            None => None,
        }
    } else {
        None
    }
}

pub open spec fn char_at(t: Seq<char>, i: int, c: char) -> bool {
    0 <= i < t.len() && t[i] == c
}

/// A non-zero step after a comma at `i`.
pub open spec fn step_after(t: Seq<char>, i: int) -> Option<(i64, int)> {
    if char_at(t, i, ',') {
        match int_token(t, i + 1) {
            Some((st, e)) => if st != 0 {
                Some((st, e))
            } else {
                None
            },
            None => None,
        }
    } else {
        None
    }
}

/// The range of `gen`: `<start>[,[=]<end>][,<step>]`, as start, end, whether
/// the end is included, step, and where it stops. A missing end is the
/// largest `i64`, a missing step is 1.
pub open spec fn gen_range(t: Seq<char>, i: int) -> Option<(i64, i64, bool, i64, int)> {
    match int_token(t, i) {
        None => None,
        Some((s, p)) => {
            let dflt = Some((s, i64::MAX, false, 1i64, p));
            if !char_at(t, p, ',') {
                dflt
            } else if char_at(t, p + 1, '=') {
                match int_token(t, p + 2) {
                    Some((e, q)) => match step_after(t, q) {
                        Some((st, f)) => Some((s, e, true, st, f)),
                        None => Some((s, e, true, 1i64, q)),
                    },
                    None => dflt,
                }
            } else {
                match int_token(t, p + 1) {
                    Some((e, q)) => match step_after(t, q) {
                        Some((st, f)) => Some((s, e, false, st, f)),
                        None => Some((s, e, false, 1i64, q)),
                    },
                    None => match step_after(t, p + 1) {
                        Some((st, f)) => Some((s, i64::MAX, false, st, f)),
                        None => dflt,
                    },
                }
            }
        },
    }
}

pub open spec fn kw_gen() -> Seq<char> {
    seq!['g', 'e', 'n']
}

/// `gen <range> `.
pub open spec fn gen_cmd(t: Seq<char>, i: int) -> Option<(i64, i64, bool, i64, int)> {
    match cmd_alone(t, i, kw_gen()) {
        None => None,
        Some(a) => match gen_range(t, a) {
            None => None,
            Some((s, e, inc, st, b)) => match space1(t, b) {
                None => None,
                Some(c) => Some((s, e, inc, st, c)),
            },
        },
    }
}

fn digits_end_exec(t: &Vec<char>, i: usize) -> (r: usize)
    requires
        i <= t@.len(),
    ensures
        r == digits_end(t@, i as int),
        i <= r <= t@.len(),
{
    let mut j = i;
    while j < t.len() && '0' <= t[j] && t[j] <= '9'
        invariant
            i <= j <= t@.len(),
            digits_end(t@, i as int) == digits_end(t@, j as int),
        decreases t@.len() - j,
    {
        j += 1;
    }
    j
}

pub(crate) fn int_token_exec(t: &Vec<char>, i: usize) -> (r: Option<(i64, usize)>)
    requires
        i <= t@.len(),
    ensures
        r is Some <==> int_token(t@, i as int) is Some,
        r matches Some((v, j)) ==> int_token(t@, i as int) == Some((v, j as int)) && j <= t@.len(),
{
    let d = if i < t.len() && (t[i] == '-' || t[i] == '+') {
        i + 1
    } else {
        i
    };
    let e = digits_end_exec(t, d);
    if e == d {
        return None;
    }
    match parse_integer(&slice_of(t, i, e)) {
        Some(v) => Some((v, e)),
        None => None,
    }
}

pub(crate) fn char_at_exec(t: &Vec<char>, i: usize, c: char) -> (r: bool)
    ensures
        r == char_at(t@, i as int, c),
{
    i < t.len() && t[i] == c
}

fn step_after_exec(t: &Vec<char>, i: usize) -> (r: Option<(i64, usize)>)
    requires
        i <= t@.len(),
    ensures
        r is Some <==> step_after(t@, i as int) is Some,
        r matches Some((v, j)) ==> step_after(t@, i as int) == Some((v, j as int)) && j <= t@.len(),
{
    let n = t.len();
    if !char_at_exec(t, i, ',') {
        return None;
    }
    assert(i < n);
    match int_token_exec(t, i + 1) {
        Some((st, e)) => if st != 0 {
            Some((st, e))
        } else {
            None
        },
        None => None,
    }
}

fn gen_range_exec(t: &Vec<char>, i: usize) -> (r: Option<(i64, i64, bool, i64, usize)>)
    requires
        i <= t@.len(),
    ensures
        r is Some <==> gen_range(t@, i as int) is Some,
        r matches Some((s, e, inc, st, j)) ==> gen_range(t@, i as int) == Some((s, e, inc, st, j as int))
            && j <= t@.len(),
{
    let n = t.len();
    let (s, p) = match int_token_exec(t, i) {
        Some(x) => x,
        None => {
            return None;
        },
    };
    if !char_at_exec(t, p, ',') {
        return Some((s, i64::MAX, false, 1, p));
    }
    assert(p < n);
    if char_at_exec(t, p + 1, '=') {
        assert(p + 1 < n);
        match int_token_exec(t, p + 2) {
            Some((e, q)) => match step_after_exec(t, q) {
                Some((st, f)) => Some((s, e, true, st, f)),
                None => Some((s, e, true, 1, q)),
            },
            None => Some((s, i64::MAX, false, 1, p)),
        }
    } else {
        match int_token_exec(t, p + 1) {
            Some((e, q)) => match step_after_exec(t, q) {
                Some((st, f)) => Some((s, e, false, st, f)),
                None => Some((s, e, false, 1, q)),
            },
            None => match step_after_exec(t, p + 1) {
                Some((st, f)) => Some((s, i64::MAX, false, st, f)),
                None => Some((s, i64::MAX, false, 1, p)),
            },
        }
    }
}

/// `gen <start>[,[=]<end>][,<step>] `: a run of integers.
pub fn parse_gen(input: &str) -> (r: Result<(String, Input), String>)
    ensures
        r is Ok <==> gen_cmd(input@, 0) is Some,
        r matches Ok((rest, i)) ==> {
            let (s, e, inc, st, f) = gen_cmd(input@, 0)->Some_0;
            &&& i == (Input::Gen { start: s, end: e, included: inc, step: st })
            &&& rest@ == rest_of(input@, f)
        },
{
    let t = chars_of(input);
    let kw = keyword("gen");
    proof {
        reveal_strlit("gen");
        assert(kw@ =~= kw_gen());
    }
    let a = match cmd_alone_exec(&t, 0, &kw) {
        Some(a) => a,
        None => {
            return Err(String::from_str("expected `gen`"));
        },
    };
    let (s, e, inc, st, b) = match gen_range_exec(&t, a) {
        Some(x) => x,
        None => {
            return Err(String::from_str("expected the range of `gen`"));
        },
    };
    match space1_exec(&t, b) {
        Some(c) => Ok((rest_exec(&t, c), Input::Gen { start: s, end: e, included: inc, step: st })),
        None => Err(String::from_str("expected a space after the range of `gen`")),
    }
}

/// A count at `i`: at least one digit, read as a non-negative integer.
pub open spec fn count_token(t: Seq<char>, i: int) -> Option<(usize, int)> {
    let e = digits_end(t, i);
    if 0 <= i && e > i {
        match parse_i64_spec(t.subrange(i, e)) {
            Some(v) => if v >= 0 {
                Some((v as usize, e))
            } else {
                None
            },
            None => None,
        }
    } else {
        None
    }
}

pub open spec fn kw_repeat() -> Seq<char> {
    seq!['r', 'e', 'p', 'e', 'a', 't']
}

/// `repeat <value>[ <count>] `.
pub open spec fn repeat_cmd(t: Seq<char>, i: int) -> Option<(Seq<char>, Option<usize>, int)> {
    match cmd_alone(t, i, kw_repeat()) {
        None => None,
        Some(a) => match arg_at(t, a) {
            None => None,
            Some((v, b)) => {
                let (n, c) = match space1(t, b) {
                    Some(c) => match count_token(t, c) {
                        Some((n, d)) => (Some(n), d),
                        None => (None, b),
                    },
                    None => (None, b),
                };
                match space1(t, c) {
                    Some(d) => Some((v, n, d)),
                    None => None,
                }
            },
        },
    }
}

pub(crate) fn count_token_exec(t: &Vec<char>, i: usize) -> (r: Option<(usize, usize)>)
    requires
        i <= t@.len(),
    ensures
        r is Some <==> count_token(t@, i as int) is Some,
        r matches Some((v, j)) ==> count_token(t@, i as int) == Some((v, j as int)) && j <= t@.len(),
{
    let e = digits_end_exec(t, i);
    if e == i {
        return None;
    }
    match parse_integer(&slice_of(t, i, e)) {
        Some(v) => if v >= 0 {
            Some((v as usize, e))
        } else {
            None
        },
        None => None,
    }
}

/// `repeat <value>[ <count>] `: one value, repeated.
pub fn parse_repeat(input: &str) -> (r: Result<(String, Input), String>)
    ensures
        r is Ok <==> repeat_cmd(input@, 0) is Some,
        r matches Ok((rest, i)) ==> {
            let (v, n, f) = repeat_cmd(input@, 0)->Some_0;
            &&& i matches Input::Repeat { value, count } && value@ == v && count == n
            &&& rest@ == rest_of(input@, f)
        },
{
    let t = chars_of(input);
    let kw = keyword("repeat");
    proof {
        reveal_strlit("repeat");
        assert(kw@ =~= kw_repeat());
    }
    let a = match cmd_alone_exec(&t, 0, &kw) {
        Some(a) => a,
        None => {
            return Err(String::from_str("expected `repeat`"));
        },
    };
    let (value, b) = match arg_exec(&t, a) {
        Some(x) => x,
        None => {
            return Err(String::from_str("expected the value of `repeat`"));
        },
    };
    let (count, c) = match space1_exec(&t, b) {
        Some(c) => match count_token_exec(&t, c) {
            Some((n, d)) => (Some(n), d),
            None => (None, b),
        },
        None => (None, b),
    };
    match space1_exec(&t, c) {
        Some(d) => Ok((rest_exec(&t, d), Input::Repeat { value, count })),
        None => Err(String::from_str("expected a space after `repeat`")),
    }
}

/// What an input command names, in plain values.
pub enum InputView {
    StdIn,
    File(Seq<Seq<char>>),
    Clip,
    Of(Seq<Seq<char>>),
    Gen(i64, i64, bool, i64),
    Repeat(Seq<char>, Option<usize>),
}

pub open spec fn input_view(i: &Input) -> InputView {
    match i {
        Input::StdIn => InputView::StdIn,
        Input::File { files } => InputView::File(texts(files@)),
        Input::Clip => InputView::Clip,
        Input::Of { values } => InputView::Of(texts(values@)),
        Input::Gen { start, end, included, step } => InputView::Gen(*start, *end, *included, *step),
        Input::Repeat { value, count } => InputView::Repeat(value@, *count),
    }
}

/// The input command at the start of `t` and where it ends; `None` when a
/// known keyword has arguments that do not parse. Without a keyword the
/// records come from standard input and nothing is read.
pub open spec fn input_cmd(t: Seq<char>) -> Option<(InputView, int)> {
    if cmd_alone(t, 0, kw_in()) is Some {
        Some((InputView::StdIn, cmd_alone(t, 0, kw_in())->Some_0))
    } else if cmd_alone(t, 0, kw_file()) is Some {
        match cmd_arg_or_args1(t, 0, kw_file()) {
            Some((vs, e)) => Some((InputView::File(vs), e)),
            None => None,
        }
    } else if cmd_alone(t, 0, kw_clip()) is Some {
        Some((InputView::Clip, cmd_alone(t, 0, kw_clip())->Some_0))
    } else if cmd_alone(t, 0, kw_of()) is Some {
        match cmd_arg_or_args1(t, 0, kw_of()) {
            Some((vs, e)) => Some((InputView::Of(vs), e)),
            None => None,
        }
    } else if cmd_alone(t, 0, kw_gen()) is Some {
        match gen_cmd(t, 0) {
            Some((a, b, inc, st, e)) => Some((InputView::Gen(a, b, inc, st), e)),
            None => None,
        }
    } else if cmd_alone(t, 0, kw_repeat()) is Some {
        match repeat_cmd(t, 0) {
            Some((v, n, e)) => Some((InputView::Repeat(v, n), e)),
            None => None,
        }
    } else {
        Some((InputView::StdIn, 0))
    }
}

/// The input command at the start of `input`. A known keyword must be
/// followed by valid arguments; without one, records come from standard input
/// and nothing is consumed.
pub fn parse_input(input: &str) -> (r: Result<(String, Input), String>)
    ensures
        r is Ok <==> input_cmd(input@) is Some,
        r matches Ok((rest, i)) ==> (input_cmd(input@) matches Some((v, e)) && input_view(&i) == v && rest@
            == rest_of(input@, e)),
        cmd_alone(input@, 0, kw_in()) is Some ==> r is Ok && r->Ok_0.1 == Input::StdIn,
        cmd_alone(input@, 0, kw_in()) is None && cmd_alone(input@, 0, kw_file()) is Some ==> (r is Ok
            <==> cmd_arg_or_args1(input@, 0, kw_file()) is Some) && (r matches Ok((rest, i)) ==> {
            let (vs, e) = cmd_arg_or_args1(input@, 0, kw_file())->Some_0;
            &&& i matches Input::File { files } && texts(files@) == vs
            &&& rest@ == rest_of(input@, e)
        }),
        cmd_alone(input@, 0, kw_in()) is None && cmd_alone(input@, 0, kw_file()) is None && cmd_alone(
            input@,
            0,
            kw_clip(),
        ) is Some ==> r is Ok && r->Ok_0.1 == Input::Clip,
        cmd_alone(input@, 0, kw_in()) is None && cmd_alone(input@, 0, kw_file()) is None && cmd_alone(
            input@,
            0,
            kw_clip(),
        ) is None && cmd_alone(input@, 0, kw_of()) is Some ==> (r is Ok <==> cmd_arg_or_args1(
            input@,
            0,
            kw_of(),
        ) is Some) && (r matches Ok((rest, i)) ==> {
            let (vs, e) = cmd_arg_or_args1(input@, 0, kw_of())->Some_0;
            &&& i matches Input::Of { values } && texts(values@) == vs
            &&& rest@ == rest_of(input@, e)
        }),
        cmd_alone(input@, 0, kw_in()) is None && cmd_alone(input@, 0, kw_file()) is None && cmd_alone(
            input@,
            0,
            kw_clip(),
        ) is None && cmd_alone(input@, 0, kw_of()) is None && cmd_alone(input@, 0, kw_gen()) is Some
            ==> (r is Ok <==> gen_cmd(input@, 0) is Some) && (r matches Ok((rest, i)) ==> {
            let (s, e, inc, st, f) = gen_cmd(input@, 0)->Some_0;
            &&& i == (Input::Gen { start: s, end: e, included: inc, step: st })
            &&& rest@ == rest_of(input@, f)
        }),
        cmd_alone(input@, 0, kw_in()) is None && cmd_alone(input@, 0, kw_file()) is None && cmd_alone(
            input@,
            0,
            kw_clip(),
        ) is None && cmd_alone(input@, 0, kw_of()) is None && cmd_alone(input@, 0, kw_gen()) is None
            && cmd_alone(input@, 0, kw_repeat()) is Some ==> (r is Ok <==> repeat_cmd(input@, 0) is Some)
            && (r matches Ok((rest, i)) ==> {
            let (v, n, f) = repeat_cmd(input@, 0)->Some_0;
            &&& i matches Input::Repeat { value, count } && value@ == v && count == n
            &&& rest@ == rest_of(input@, f)
        }),
        cmd_alone(input@, 0, kw_in()) is None && cmd_alone(input@, 0, kw_file()) is None && cmd_alone(
            input@,
            0,
            kw_clip(),
        ) is None && cmd_alone(input@, 0, kw_of()) is None && cmd_alone(input@, 0, kw_gen()) is None
            && cmd_alone(input@, 0, kw_repeat()) is None ==> (r matches Ok((rest, i)) && i == Input::StdIn
            && rest@ == input@),
{
    let t = chars_of(input);
    let k_in = keyword("in");
    let k_file = keyword("file");
    let k_clip = keyword("clip");
    let k_of = keyword("of");
    let k_gen = keyword("gen");
    let k_repeat = keyword("repeat");
    proof {
        reveal_strlit("in");
        reveal_strlit("file");
        reveal_strlit("clip");
        reveal_strlit("of");
        reveal_strlit("gen");
        reveal_strlit("repeat");
        assert(k_in@ =~= kw_in());
        assert(k_file@ =~= kw_file());
        assert(k_clip@ =~= kw_clip());
        assert(k_of@ =~= kw_of());
        assert(k_gen@ =~= kw_gen());
        assert(k_repeat@ =~= kw_repeat());
    }
    if cmd_alone_exec(&t, 0, &k_in).is_some() {
        parse_std_in(input)
    } else if cmd_alone_exec(&t, 0, &k_file).is_some() {
        parse_file(input)
    } else if cmd_alone_exec(&t, 0, &k_clip).is_some() {
        parse_clip(input)
    } else if cmd_alone_exec(&t, 0, &k_of).is_some() {
        parse_of(input)
    } else if cmd_alone_exec(&t, 0, &k_gen).is_some() {
        parse_gen(input)
    } else if cmd_alone_exec(&t, 0, &k_repeat).is_some() {
        parse_repeat(input)
    } else {
        let rest = string_of(&t);
        Ok((rest, Input::StdIn))
    }
}

/// One argument at the start of `input`, and the text after it.
pub fn parse_arg(input: &str) -> (r: Result<(String, String), String>)
    ensures
        r is Ok <==> arg_at(input@, 0) is Some,
        r matches Ok((rest, v)) ==> v@ == arg_at(input@, 0)->Some_0.0 && rest@ == rest_of(
            input@,
            arg_at(input@, 0)->Some_0.1,
        ),
{
    let t = chars_of(input);
    match arg_exec(&t, 0) {
        Some((v, e)) => Ok((rest_exec(&t, e), v)),
        None => Err(String::from_str("expected an argument")),
    }
}

/// `cmd arg ` at the start of `input`: the argument, and the text after it.
pub fn parse_cmd_arg(cmd: &str, input: &str) -> (r: Result<(String, String), String>)
    ensures
        r is Ok <==> cmd_arg(input@, 0, cmd@) is Some,
        r matches Ok((rest, v)) ==> v@ == cmd_arg(input@, 0, cmd@)->Some_0.0 && rest@ == rest_of(
            input@,
            cmd_arg(input@, 0, cmd@)->Some_0.1,
        ),
{
    let t = chars_of(input);
    let c = chars_of(cmd);
    match cmd_arg_exec(&t, 0, &c) {
        Some((v, e)) => Ok((rest_exec(&t, e), v)),
        None => Err(String::from_str("expected the command and one argument")),
    }
}

/// `cmd [ arg ... ] ` at the start of `input`: the arguments, and the text after them.
pub fn parse_cmd_args1(cmd: &str, input: &str) -> (r: Result<(String, Vec<String>), String>)
    ensures
        r is Ok <==> cmd_args1(input@, 0, cmd@) is Some,
        r matches Ok((rest, vs)) ==> texts(vs@) == cmd_args1(input@, 0, cmd@)->Some_0.0 && rest@ == rest_of(
            input@,
            cmd_args1(input@, 0, cmd@)->Some_0.1,
        ),
{
    let t = chars_of(input);
    let c = chars_of(cmd);
    match cmd_args1_exec(&t, 0, &c) {
        Some((vs, e)) => Ok((rest_exec(&t, e), vs)),
        None => Err(String::from_str("expected the command and a list of arguments")),
    }
}

/// `cmd arg ` or `cmd [ arg ... ] ` at the start of `input`.
pub fn parse_cmd_arg_or_args1(cmd: &str, input: &str) -> (r: Result<(String, Vec<String>), String>)
    ensures
        r is Ok <==> cmd_arg_or_args1(input@, 0, cmd@) is Some,
        r matches Ok((rest, vs)) ==> texts(vs@) == cmd_arg_or_args1(input@, 0, cmd@)->Some_0.0 && rest@
            == rest_of(input@, cmd_arg_or_args1(input@, 0, cmd@)->Some_0.1),
{
    let t = chars_of(input);
    let c = chars_of(cmd);
    match cmd_arg_or_args1_exec(&t, 0, &c) {
        Some((vs, e)) => Ok((rest_exec(&t, e), vs)),
        None => Err(String::from_str("expected the command and its arguments")),
    }
}

} // verus!
