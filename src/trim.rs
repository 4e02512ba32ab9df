use vstd::prelude::*;

use crate::condition::{is_white, is_white_exec};
use crate::err::RpErr;
use crate::pattern::{regex_compiles, regex_split_first, Re};
use crate::text::{chars_of, fold, lower_seq, seq_eq_fold, string_of, to_ascii_lower};

verus! {

/// Which end of a record a trim works on.
#[derive(Debug, Clone, Copy, PartialEq, Eq, Structural)]
pub enum TrimPos {
    Head,
    Tail,
    Both,
}

/// What a trim takes away.
pub enum TrimParam {
    /// White space.
    Blank,
    /// One occurrence of this text.
    Str(String),
    /// Any run of these characters.
    Chars(Vec<char>),
    /// A match of `source`; `head` and `tail` are it anchored at either end.
    Regex { source: String, head: Re, tail: Re },
}

/// A trim: where it works, what it takes away, and whether case is ignored.
pub struct TrimArg {
    pos: TrimPos,
    param: TrimParam,
    nocase: bool,
}

/// What a trim takes away, in terms of plain values.
pub enum TrimKind {
    Blank,
    Str(Seq<char>, bool),
    Chars(Seq<char>, bool),
    Regex(Seq<char>),
}

pub open spec fn head_anchored(p: Seq<char>) -> Seq<char> {
    seq!['\\', 'A', '(', '?', ':'] + p + seq![')']
}

pub open spec fn tail_anchored(p: Seq<char>) -> Seq<char> {
    seq!['(', '?', ':'] + p + seq![')', '\\', 'z']
}

/// The number of leading characters that satisfy `f`.
pub open spec fn lead_count(t: Seq<char>, f: spec_fn(char) -> bool) -> nat
    decreases t.len(),
{
    if t.len() > 0 && f(t[0]) {
        1 + lead_count(t.drop_first(), f)
    } else {
        0
    }
}

/// The number of trailing characters that satisfy `f`.
pub open spec fn trail_count(t: Seq<char>, f: spec_fn(char) -> bool) -> nat
    decreases t.len(),
{
    if t.len() > 0 && f(t.last()) {
        1 + trail_count(t.drop_last(), f)
    } else {
        0
    }
}

/// Whether `c` is one of `set`, compared after folding.
pub open spec fn in_set(c: char, set: Seq<char>, nocase: bool) -> bool {
    exists|k: int| 0 <= k < set.len() && fold(#[trigger] set[k], nocase) == fold(c, nocase)
}

/// The same trim, ignoring case also when `nocase` is given from outside.
pub open spec fn with_nocase(k: TrimKind, nocase: bool) -> TrimKind {
    match k {
        TrimKind::Str(p, nc) => TrimKind::Str(p, nc || nocase),
        TrimKind::Chars(v, nc) => TrimKind::Chars(v, nc || nocase),
        _ => k,
    }
}

/// `r` is a run of consecutive characters of `t`: at its end for a head trim,
/// at its start for a tail trim, anywhere for both.
pub open spec fn is_piece(pos: TrimPos, r: Seq<char>, t: Seq<char>) -> bool {
    &&& r.len() <= t.len()
    &&& match pos {
        TrimPos::Head => r == t.subrange(t.len() - r.len(), t.len() as int),
        TrimPos::Tail => r == t.subrange(0, r.len() as int),
        TrimPos::Both => exists|a: int| 0 <= a && a + r.len() <= t.len() && r == #[trigger] t.subrange(a, a + r.len()),
    }
}

/// The text with the head trimmed.
pub open spec fn trim_head_spec(k: TrimKind, t: Seq<char>) -> Seq<char> {
    match k {
        TrimKind::Blank => t.skip(lead_count(t, |c: char| is_white(c)) as int),
        TrimKind::Str(p, nocase) => if p.len() <= t.len() && seq_eq_fold(t.take(p.len() as int), p, nocase) {
            t.skip(p.len() as int)
        } else {
            t
        },
        TrimKind::Chars(set, nocase) => t.skip(lead_count(t, |c: char| in_set(c, set, nocase)) as int),
        TrimKind::Regex(p) => match regex_split_first(head_anchored(p), t) {
            Some((_, after)) => after,
            None => t,
        },
    }
}

/// The text with the tail trimmed.
pub open spec fn trim_tail_spec(k: TrimKind, t: Seq<char>) -> Seq<char> {
    match k {
        TrimKind::Blank => t.take(t.len() - trail_count(t, |c: char| is_white(c))),
        TrimKind::Str(p, nocase) => if p.len() <= t.len() && seq_eq_fold(t.skip(t.len() - p.len()), p, nocase) {
            t.take(t.len() - p.len())
        } else {
            t
        },
        TrimKind::Chars(set, nocase) => t.take(t.len() - trail_count(t, |c: char| in_set(c, set, nocase))),
        TrimKind::Regex(p) => match regex_split_first(tail_anchored(p), t) {
            Some((before, _)) => before,
            None => t,
        },
    }
}

/// The text trimmed at the ends that `pos` names; both ends means the head first.
pub open spec fn trim_spec(pos: TrimPos, k: TrimKind, t: Seq<char>) -> Seq<char> {
    match pos {
        TrimPos::Head => trim_head_spec(k, t),
        TrimPos::Tail => trim_tail_spec(k, t),
        TrimPos::Both => trim_tail_spec(k, trim_head_spec(k, t)),
    }
}

/// Trimming both ends is trimming the head, then the tail, for every kind of trim.
pub proof fn lemma_trim_both(k: TrimKind, t: Seq<char>)
    ensures
        trim_spec(TrimPos::Both, k, t) == trim_spec(TrimPos::Tail, k, trim_spec(TrimPos::Head, k, t)),
{
}

impl TrimArg {
    pub closed spec fn position(&self) -> TrimPos {
        self.pos
    }

    /// What this trim takes away.
    pub closed spec fn kind(&self) -> TrimKind {
        match &self.param {
            TrimParam::Blank => TrimKind::Blank,
            TrimParam::Str(p) => TrimKind::Str(p@, self.nocase),
            TrimParam::Chars(v) => TrimKind::Chars(v@, self.nocase),
            TrimParam::Regex { source, .. } => TrimKind::Regex(source@),
        }
    }

    pub closed spec fn wf(&self) -> bool {
        match &self.param {
            TrimParam::Regex { source, head, tail } => head.pattern() == head_anchored(source@)
                && tail.pattern() == tail_anchored(source@),
            TrimParam::Str(p) => self.nocase ==> p@ == lower_seq(p@),
            TrimParam::Chars(v) => self.nocase ==> forall|k: int| 0 <= k < v@.len() ==> crate::text::ascii_lower(#[trigger] v@[k]) == v@[k],
            TrimParam::Blank => true,
        }
    }

    pub fn new_blank(pos: TrimPos) -> (r: TrimArg)
        ensures
            r.wf(),
            r.position() == pos,
            r.kind() == TrimKind::Blank,
    {
        TrimArg { pos, param: TrimParam::Blank, nocase: false }
    }

    /// Trims one occurrence of `pattern`; with `nocase` ASCII letters match in either case.
    pub fn new_str(pos: TrimPos, pattern: String, nocase: bool) -> (r: TrimArg)
        ensures
            r.wf(),
            r.position() == pos,
            r.kind() == TrimKind::Str(if nocase { lower_seq(pattern@) } else { pattern@ }, nocase),
    {
        let p = if nocase {
            let low = lower_chars(&chars_of(pattern.as_str()));
            string_of(&low)
        } else {
            pattern
        };
        proof {
            if nocase {
                assert(lower_seq(lower_seq(pattern@)) =~= lower_seq(pattern@));
            }
        }
        TrimArg { pos, param: TrimParam::Str(p), nocase }
    }

    /// Trims runs of the characters of `pattern`; with `nocase` ASCII letters match in either case.
    pub fn new_chars(pos: TrimPos, pattern: String, nocase: bool) -> (r: TrimArg)
        ensures
            r.wf(),
            r.position() == pos,
            r.kind() matches TrimKind::Chars(set, nc) && nc == nocase && (forall|c: char|
                set.contains(c) <==> (if nocase { lower_seq(pattern@) } else { pattern@ }).contains(c)),
    {
        let src = chars_of(pattern.as_str());
        let p = if nocase {
            lower_chars(&src)
        } else {
            src
        };
        let ghost want = if nocase { lower_seq(pattern@) } else { pattern@ };
        assert(p@ == want);
        proof {
            if nocase {
                assert(lower_seq(lower_seq(pattern@)) =~= lower_seq(pattern@));
            }
        }
        let set = dedup_chars(&p);
        proof {
            if nocase {
                assert forall|k: int| 0 <= k < set@.len() implies crate::text::ascii_lower(#[trigger] set@[k]) == set@[k] by {
                    assert(p@.contains(set@[k]));
                    let u = choose|u: int| 0 <= u < p@.len() && p@[u] == set@[k];
                    assert(lower_seq(p@)[u] == p@[u]);
                }
            }
        }
        TrimArg { pos, param: TrimParam::Chars(set), nocase }
    }

    /// Trims what `reg` matches at the head and/or tail.
    pub fn new_regex(pos: TrimPos, reg: String) -> (r: Result<TrimArg, RpErr>)
        ensures
            r is Ok <==> regex_compiles(head_anchored(reg@)) && regex_compiles(tail_anchored(reg@)),
            r matches Ok(a) ==> a.wf() && a.position() == pos && a.kind() == TrimKind::Regex(reg@),
            r matches Err(e) ==> e is ParseRegexErr,
    {
        let mut h = String::from_str("\\A(?:");
        h.append(reg.as_str());
        h.append(")");
        let mut t = String::from_str("(?:");
        t.append(reg.as_str());
        t.append(")\\z");
        proof {
            reveal_strlit("\\A(?:");
            reveal_strlit(")");
            reveal_strlit("(?:");
            reveal_strlit(")\\z");
            assert(h@ =~= head_anchored(reg@));
            assert(t@ =~= tail_anchored(reg@));
        }
        let head = match Re::compile(h.as_str()) {
            Ok(re) => re,
            Err(err) => {
                return Err(RpErr::ParseRegexErr { reg, err });
            },
        };
        let tail = match Re::compile(t.as_str()) {
            Ok(re) => re,
            Err(err) => {
                return Err(RpErr::ParseRegexErr { reg, err });
            },
        };
        Ok(TrimArg { pos, param: TrimParam::Regex { source: reg, head, tail }, nocase: false })
    }

    /// Trims `to_trim` at the ends this trim names; both ends means the head
    /// first. With `nocase` (the global switch) text and characters match in
    /// either ASCII case too.
    pub fn trim(&self, to_trim: String, nocase: bool) -> (r: String)
        requires
            self.wf(),
        ensures
            r@ == trim_spec(self.position(), with_nocase(self.kind(), nocase), to_trim@),
            is_piece(self.position(), r@, to_trim@),
    {
        let nc = self.nocase || nocase;
        match self.pos {
            TrimPos::Head => self.trim_head(to_trim, nc),
            TrimPos::Tail => self.trim_tail(to_trim, nc),
            TrimPos::Both => {
                let ghost t = to_trim@;
                let h = self.trim_head(to_trim, nc);
                let ghost hv = h@;
                let r = self.trim_tail(h, nc);
                proof {
                    let a = t.len() - hv.len();
                    assert(r@ =~= t.subrange(a, a + r@.len()));
                }
                r
            },
        }
    }

    fn trim_head(&self, to_trim: String, nc: bool) -> (r: String)
        requires
            self.wf(),
            nc == (self.nocase || nc),
        ensures
            r@ == trim_head_spec(with_nocase(self.kind(), nc), to_trim@),
            is_piece(TrimPos::Head, r@, to_trim@),
    {
        match &self.param {
            TrimParam::Blank => {
                let t = chars_of(to_trim.as_str());
                let n = lead_blank(&t);
                string_of(&copy_range(&t, n, t.len()))
            },
            TrimParam::Str(p) => {
                let t = chars_of(to_trim.as_str());
                let pv = chars_of(p.as_str());
                if pv.len() <= t.len() && eq_fold_at(&t, 0, &pv, nc) {
                    string_of(&copy_range(&t, pv.len(), t.len()))
                } else {
                    assert(to_trim@ =~= to_trim@.subrange(0, to_trim@.len() as int));
                    to_trim
                }
            },
            TrimParam::Chars(set) => {
                let t = chars_of(to_trim.as_str());
                let n = lead_in_set(&t, set, nc);
                string_of(&copy_range(&t, n, t.len()))
            },
            TrimParam::Regex { head, .. } => match head.split_first(to_trim.as_str()) {
                Some((_, after)) => after,
                None => {
                    assert(to_trim@ =~= to_trim@.subrange(0, to_trim@.len() as int));
                    to_trim
                },
            },
        }
    }

    fn trim_tail(&self, to_trim: String, nc: bool) -> (r: String)
        requires
            self.wf(),
            nc == (self.nocase || nc),
        ensures
            r@ == trim_tail_spec(with_nocase(self.kind(), nc), to_trim@),
            is_piece(TrimPos::Tail, r@, to_trim@),
    {
        match &self.param {
            TrimParam::Blank => {
                let t = chars_of(to_trim.as_str());
                let n = trail_blank(&t);
                string_of(&copy_range(&t, 0, t.len() - n))
            },
            TrimParam::Str(p) => {
                let t = chars_of(to_trim.as_str());
                let pv = chars_of(p.as_str());
                if pv.len() <= t.len() && eq_fold_at(&t, t.len() - pv.len(), &pv, nc) {
                    string_of(&copy_range(&t, 0, t.len() - pv.len()))
                } else {
                    assert(to_trim@ =~= to_trim@.subrange(0, to_trim@.len() as int));
                    to_trim
                }
            },
            TrimParam::Chars(set) => {
                let t = chars_of(to_trim.as_str());
                let n = trail_in_set(&t, set, nc);
                string_of(&copy_range(&t, 0, t.len() - n))
            },
            TrimParam::Regex { tail, .. } => match tail.split_first(to_trim.as_str()) {
                Some((before, _)) => before,
                None => {
                    assert(to_trim@ =~= to_trim@.subrange(0, to_trim@.len() as int));
                    to_trim
                },
            },
        }
    }
}

/// The characters of `p`, each once, in the order they first appear.
fn dedup_chars(p: &Vec<char>) -> (r: Vec<char>)
    ensures
        forall|c: char| r@.contains(c) <==> p@.contains(c),
{
    let mut set: Vec<char> = Vec::new();
    let mut i: usize = 0;
    while i < p.len()
        invariant
            0 <= i <= p@.len(),
            forall|c: char| set@.contains(c) <==> exists|u: int| 0 <= u < i && #[trigger] p@[u] == c,
        decreases p@.len() - i,
    {
        let c = p[i];
        let mut seen = false;
        let mut j: usize = 0;
        while j < set.len()
            invariant
                0 <= j <= set@.len(),
                seen <==> exists|w: int| 0 <= w < j && #[trigger] set@[w] == c,
            decreases set@.len() - j,
        {
            if set[j] == c {
                seen = true;
            }
            j += 1;
        }
        let ghost before = set@;
        if !seen {
            set.push(c);
        }
        proof {
            assert forall|d: char| set@.contains(d) <==> exists|u: int| 0 <= u < i + 1 && #[trigger] p@[u] == d by {
                if set@.contains(d) {
                    let w = choose|w: int| 0 <= w < set@.len() && set@[w] == d;
                    if w < before.len() {
                        assert(before[w] == d);
                        assert(before.contains(d));
                        let u = choose|u: int| 0 <= u < i && #[trigger] p@[u] == d;
                        assert(p@[u] == d);
                    } else {
                        assert(p@[i as int] == d);
                    }
                }
                if exists|u: int| 0 <= u < i + 1 && #[trigger] p@[u] == d {
                    let u = choose|u: int| 0 <= u < i + 1 && #[trigger] p@[u] == d;
                    if u < i {
                        assert(before.contains(d));
                        let w = choose|w: int| 0 <= w < before.len() && before[w] == d;
                        assert(set@[w] == d);
                    } else if seen {
                        let w = choose|w: int| 0 <= w < before.len() && #[trigger] before[w] == c;
                        assert(set@[w] == d);
                    } else {
                        assert(set@[set@.len() - 1] == d);
                    }
                }
            }
        }
        i += 1;
    }
    proof {
        assert forall|c: char| set@.contains(c) <==> p@.contains(c) by {
            if p@.contains(c) {
                let u = choose|u: int| 0 <= u < p@.len() && p@[u] == c;
                assert(p@[u] == c);
            }
        }
    }
    set
}

fn lower_chars(v: &Vec<char>) -> (r: Vec<char>)
    ensures
        r@ == lower_seq(v@),
{
    let mut out: Vec<char> = Vec::new();
    let mut i: usize = 0;
    while i < v.len()
        invariant
            0 <= i <= v@.len(),
            out@ == lower_seq(v@).take(i as int),
        decreases v@.len() - i,
    {
        out.push(to_ascii_lower(v[i]));
        i += 1;
        assert(out@ =~= lower_seq(v@).take(i as int));
    }
    assert(out@ =~= lower_seq(v@));
    out
}

fn copy_range(t: &Vec<char>, a: usize, b: usize) -> (r: Vec<char>)
    requires
        a <= b <= t@.len(),
    ensures
        r@ == t@.subrange(a as int, b as int),
{
    let mut out: Vec<char> = Vec::new();
    let mut i: usize = a;
    while i < b
        invariant
            a <= i <= b <= t@.len(),
            out@ == t@.subrange(a as int, i as int),
        decreases b - i,
    {
        out.push(t[i]);
        i += 1;
        assert(out@ =~= t@.subrange(a as int, i as int));
    }
    out
}

/// Whether `p` occurs in `t` at `at`, compared after folding.
fn eq_fold_at(t: &Vec<char>, at: usize, p: &Vec<char>, nocase: bool) -> (r: bool)
    requires
        at + p@.len() <= t@.len(),
    ensures
        r == seq_eq_fold(t@.subrange(at as int, at + p@.len()), p@, nocase),
{
    let n = t.len();
    assert(t@.len() == n);
    let mut k: usize = 0;
    while k < p.len()
        invariant
            at + p@.len() <= t@.len(),
            t@.len() <= usize::MAX,
            0 <= k <= p@.len(),
            forall|j: int| 0 <= j < k ==> fold(#[trigger] t@[at + j], nocase) == fold(p@[j], nocase),
        decreases p@.len() - k,
    {
        let (x, y) = if nocase {
            (to_ascii_lower(t[at + k]), to_ascii_lower(p[k]))
        } else {
            (t[at + k], p[k])
        };
        if x != y {
            assert(t@.subrange(at as int, at + p@.len())[k as int] == t@[at + k]);
            return false;
        }
        k += 1;
    }
    assert forall|j: int| 0 <= j < p@.len() implies fold(#[trigger] t@.subrange(at as int, at + p@.len())[j], nocase) == fold(p@[j], nocase) by {
        assert(t@.subrange(at as int, at + p@.len())[j] == t@[at + j]);
    }
    true
}

proof fn lemma_lead_step(t: Seq<char>, f: spec_fn(char) -> bool, i: int)
    requires
        0 <= i < t.len(),
    ensures
        lead_count(t.skip(i), f) == if f(t[i]) { 1 + lead_count(t.skip(i + 1), f) } else { 0 },
{
    assert(t.skip(i).drop_first() =~= t.skip(i + 1));
}

proof fn lemma_trail_step(t: Seq<char>, f: spec_fn(char) -> bool, j: int)
    requires
        0 < j <= t.len(),
    ensures
        trail_count(t.take(j), f) == if f(t[j - 1]) { 1 + trail_count(t.take(j - 1), f) } else { 0 },
{
    assert(t.take(j).drop_last() =~= t.take(j - 1));
}

fn in_set_exec(c: char, set: &Vec<char>, nocase: bool) -> (r: bool)
    ensures
        r == in_set(c, set@, nocase),
{
    let d = if nocase {
        to_ascii_lower(c)
    } else {
        c
    };
    let mut i: usize = 0;
    while i < set.len()
        invariant
            0 <= i <= set@.len(),
            d == fold(c, nocase),
            forall|j: int| 0 <= j < i ==> fold(#[trigger] set@[j], nocase) != d,
        decreases set@.len() - i,
    {
        let e = if nocase {
            to_ascii_lower(set[i])
        } else {
            set[i]
        };
        if e == d {
            assert(fold(set@[i as int], nocase) == fold(c, nocase));
            return true;
        }
        i += 1;
    }
    false
}

fn lead_in_set(t: &Vec<char>, set: &Vec<char>, nocase: bool) -> (r: usize)
    ensures
        r == lead_count(t@, |c: char| in_set(c, set@, nocase)),
        r <= t@.len(),
{
    let ghost f = |c: char| in_set(c, set@, nocase);
    let mut i: usize = 0;
    assert(t@.skip(0) =~= t@);
    while i < t.len() && in_set_exec(t[i], set, nocase)
        invariant
            0 <= i <= t@.len(),
            f == (|c: char| in_set(c, set@, nocase)),
            lead_count(t@, f) == i + lead_count(t@.skip(i as int), f),
        decreases t@.len() - i,
    {
        proof {
            lemma_lead_step(t@, f, i as int);
        }
        i += 1;
    }
    proof {
        if i < t@.len() {
            lemma_lead_step(t@, f, i as int);
        }
    }
    i
}

fn trail_in_set(t: &Vec<char>, set: &Vec<char>, nocase: bool) -> (r: usize)
    ensures
        r == trail_count(t@, |c: char| in_set(c, set@, nocase)),
        r <= t@.len(),
{
    let ghost f = |c: char| in_set(c, set@, nocase);
    let mut j: usize = t.len();
    assert(t@.take(j as int) =~= t@);
    while j > 0 && in_set_exec(t[j - 1], set, nocase)
        invariant
            0 <= j <= t@.len(),
            f == (|c: char| in_set(c, set@, nocase)),
            trail_count(t@, f) == (t@.len() - j) + trail_count(t@.take(j as int), f),
        decreases j,
    {
        proof {
            lemma_trail_step(t@, f, j as int);
        }
        j -= 1;
    }
    proof {
        if j > 0 {
            lemma_trail_step(t@, f, j as int);
        }
    }
    t.len() - j
}

fn lead_blank(t: &Vec<char>) -> (r: usize)
    ensures
        r == lead_count(t@, |c: char| is_white(c)),
        r <= t@.len(),
{
    let ghost f = |c: char| is_white(c);
    let mut i: usize = 0;
    assert(t@.skip(0) =~= t@);
    while i < t.len() && is_white_exec(t[i])
        invariant
            0 <= i <= t@.len(),
            f == (|c: char| is_white(c)),
            lead_count(t@, f) == i + lead_count(t@.skip(i as int), f),
        decreases t@.len() - i,
    {
        proof {
            lemma_lead_step(t@, f, i as int);
        }
        i += 1;
    }
    proof {
        if i < t@.len() {
            lemma_lead_step(t@, f, i as int);
        }
    }
    i
}

fn trail_blank(t: &Vec<char>) -> (r: usize)
    ensures
        r == trail_count(t@, |c: char| is_white(c)),
        r <= t@.len(),
{
    let ghost f = |c: char| is_white(c);
    let mut j: usize = t.len();
    assert(t@.take(j as int) =~= t@);
    while j > 0 && is_white_exec(t[j - 1])
        invariant
            0 <= j <= t@.len(),
            f == (|c: char| is_white(c)),
            trail_count(t@, f) == (t@.len() - j) + trail_count(t@.take(j as int), f),
        decreases j,
    {
        proof {
            lemma_trail_step(t@, f, j as int);
        }
        j -= 1;
    }
    proof {
        if j > 0 {
            lemma_trail_step(t@, f, j as int);
        }
    }
    t.len() - j
}

} // verus!
