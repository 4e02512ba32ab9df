use vstd::prelude::*;

use crate::condition::{holds, Condition};
use crate::num::{int_text, int_to_text, parse_i64_spec, parse_integer};
use crate::replace::{replace_with_count_and_nocase, replaced};
use crate::text::{
    ascii_lower,
    ascii_upper,
    chars_of,
    extend_chars,
    lower_seq,
    string_of,
    to_ascii_lower,
    to_ascii_upper,
    upper_seq,
};

verus! {

/// The texts of a run of records.
pub open spec fn texts(v: Seq<String>) -> Seq<Seq<char>> {
    v.map_values(|s: String| s@)
}

/// The records among the first `n` whose position satisfies `keep`, in order.
pub open spec fn keep_where(s: Seq<Seq<char>>, keep: spec_fn(int) -> bool, n: int) -> Seq<Seq<char>>
    decreases n,
{
    if n <= 0 {
        Seq::empty()
    } else if keep(n - 1) {
        keep_where(s, keep, n - 1).push(s[n - 1])
    } else {
        keep_where(s, keep, n - 1)
    }
}

/// How the case of letters changes.
#[derive(Debug, Clone, Copy, PartialEq, Eq, Structural)]
pub enum CaseArg {
    Upper,
    Lower,
    Switch,
}

/// An ASCII letter in the other case; other characters kept.
pub open spec fn ascii_switch(c: char) -> char {
    if 'a' <= c && c <= 'z' {
        ascii_upper(c)
    } else {
        ascii_lower(c)
    }
}

pub open spec fn case_spec(mode: CaseArg, s: Seq<char>) -> Seq<char> {
    match mode {
        CaseArg::Upper => upper_seq(s),
        CaseArg::Lower => lower_seq(s),
        CaseArg::Switch => s.map_values(|c: char| ascii_switch(c)),
    }
}

/// Changes the case of the ASCII letters of `s`; every other character stays.
pub fn change_case(mode: CaseArg, s: &str) -> (r: String)
    ensures
        r@ == case_spec(mode, s@),
{
    let t = chars_of(s);
    let mut out: Vec<char> = Vec::new();
    let mut i: usize = 0;
    while i < t.len()
        invariant
            0 <= i <= t@.len(),
            t@ == s@,
            out@ == case_spec(mode, s@).subrange(0, i as int),
        decreases t@.len() - i,
    {
        let c = t[i];
        let d = match mode {
            CaseArg::Upper => to_ascii_upper(c),
            CaseArg::Lower => to_ascii_lower(c),
            CaseArg::Switch => if 'a' <= c && c <= 'z' {
                to_ascii_upper(c)
            } else {
                to_ascii_lower(c)
            },
        };
        out.push(d);
        i += 1;
        assert(out@ =~= case_spec(mode, s@).subrange(0, i as int));
    }
    assert(out@ =~= case_spec(mode, s@));
    string_of(&out)
}

/// Whether position `i` lies in the inclusive range `r`; a missing start is 0
/// and a missing end is unbounded, so an inverted range holds nothing.
pub open spec fn in_range(i: int, r: (Option<usize>, Option<usize>)) -> bool {
    (match r.0 {
        Some(a) => a <= i,
        None => 0 <= i,
    }) && (match r.1 {
        Some(b) => i <= b,
        None => true,
    })
}

pub open spec fn in_ranges(i: int, ranges: Seq<(Option<usize>, Option<usize>)>) -> bool {
    exists|k: int| 0 <= k < ranges.len() && in_range(i, #[trigger] ranges[k])
}

pub(crate) fn in_ranges_exec(i: usize, ranges: &Vec<(Option<usize>, Option<usize>)>) -> (r: bool)
    ensures
        r == in_ranges(i as int, ranges@),
{
    let mut k: usize = 0;
    while k < ranges.len()
        invariant
            0 <= k <= ranges@.len(),
            forall|j: int| 0 <= j < k ==> !in_range(i as int, #[trigger] ranges@[j]),
        decreases ranges@.len() - k,
    {
        let (a, b) = ranges[k];
        let lo = match a {
            Some(a) => a <= i,
            None => true,
        };
        let hi = match b {
            Some(b) => i <= b,
            None => true,
        };
        if lo && hi {
            assert(in_range(i as int, ranges@[k as int]));
            return true;
        }
        k += 1;
    }
    false
}

/// Keeps the records whose position (from 0) lies in one of `ranges`, in
/// their order; each record appears at most once.
pub fn slice(records: &Vec<String>, ranges: &Vec<(Option<usize>, Option<usize>)>) -> (r: Vec<String>)
    ensures
        texts(r@) == keep_where(
            texts(records@),
            |i: int| in_ranges(i, ranges@),
            records@.len() as int,
        ),
{
    let ghost keep = |i: int| in_ranges(i, ranges@);
    let mut out: Vec<String> = Vec::new();
    let mut i: usize = 0;
    while i < records.len()
        invariant
            0 <= i <= records@.len(),
            keep == (|i: int| in_ranges(i, ranges@)),
            texts(out@) == keep_where(texts(records@), keep, i as int),
        decreases records@.len() - i,
    {
        if in_ranges_exec(i, ranges) {
            out.push(records[i].clone());
        }
        i += 1;
        assert(texts(out@) =~= keep_where(texts(records@), keep, i as int));
    }
    out
}

/// The text by which `uniq` compares records.
pub open spec fn uniq_key(s: Seq<char>, nocase: bool) -> Seq<char> {
    if nocase {
        upper_seq(s)
    } else {
        s
    }
}

/// Whether record `i` is the first one with its key.
pub open spec fn first_of_key(s: Seq<Seq<char>>, i: int, nocase: bool) -> bool {
    forall|j: int| 0 <= j < i ==> uniq_key(#[trigger] s[j], nocase) != uniq_key(s[i], nocase)
}

pub(crate) fn same_key(a: &Vec<char>, b: &Vec<char>, nocase: bool) -> (r: bool)
    ensures
        r == (uniq_key(a@, nocase) == uniq_key(b@, nocase)),
{
    if a.len() != b.len() {
        assert(uniq_key(a@, nocase).len() != uniq_key(b@, nocase).len());
        return false;
    }
    let mut k: usize = 0;
    while k < a.len()
        invariant
            a@.len() == b@.len(),
            0 <= k <= a@.len(),
            forall|j: int| 0 <= j < k ==> uniq_key(a@, nocase)[j] == uniq_key(b@, nocase)[j],
        decreases a@.len() - k,
    {
        let (x, y) = if nocase {
            (to_ascii_upper(a[k]), to_ascii_upper(b[k]))
        } else {
            (a[k], b[k])
        };
        if x != y {
            assert(uniq_key(a@, nocase)[k as int] != uniq_key(b@, nocase)[k as int]);
            return false;
        }
        k += 1;
    }
    assert(uniq_key(a@, nocase) =~= uniq_key(b@, nocase));
    true
}

/// Keeps the first record of each key, in order: the record itself, or its
/// ASCII capitals with `nocase`.
pub fn uniq(records: &Vec<String>, nocase: bool) -> (r: Vec<String>)
    ensures
        texts(r@) == keep_where(
            texts(records@),
            |i: int| first_of_key(texts(records@), i, nocase),
            records@.len() as int,
        ),
{
    let ghost s = texts(records@);
    let ghost keep = |i: int| first_of_key(s, i, nocase);
    let mut seen: Vec<Vec<char>> = Vec::new();
    let mut out: Vec<String> = Vec::new();
    let mut i: usize = 0;
    while i < records.len()
        invariant
            0 <= i <= records@.len(),
            s == texts(records@),
            keep == (|i: int| first_of_key(s, i, nocase)),
            texts(out@) == keep_where(s, keep, i as int),
            seen@.len() == i,
            forall|j: int| 0 <= j < i ==> (#[trigger] seen@[j])@ == s[j],
        decreases records@.len() - i,
    {
        let cur = chars_of(records[i].as_str());
        let mut j: usize = 0;
        let mut dup = false;
        while j < i
            invariant
                0 <= j <= i,
                i < records@.len(),
                s == texts(records@),
                seen@.len() == i,
                cur@ == s[i as int],
                forall|q: int| 0 <= q < i ==> (#[trigger] seen@[q])@ == s[q],
                !dup ==> forall|q: int| 0 <= q < j ==> uniq_key(#[trigger] s[q], nocase) != uniq_key(s[i as int], nocase),
                dup ==> !first_of_key(s, i as int, nocase),
            decreases i - j,
        {
            if !dup && same_key(&seen[j], &cur, nocase) {
                dup = true;
                assert(uniq_key(s[j as int], nocase) == uniq_key(s[i as int], nocase));
            }
            j += 1;
        }
        if !dup {
            out.push(records[i].clone());
        }
        seen.push(cur);
        i += 1;
        assert(texts(out@) =~= keep_where(s, keep, i as int));
    }
    out
}

/// Delimiter, prefix and postfix of a join.
#[derive(Debug, Clone, PartialEq, Eq)]
pub struct JoinInfo {
    pub delimiter: String,
    pub prefix: String,
    pub postfix: String,
}

/// The records with `d` between each two of them.
pub open spec fn joined(s: Seq<Seq<char>>, d: Seq<char>) -> Seq<char>
    decreases s.len(),
{
    if s.len() == 0 {
        Seq::empty()
    } else if s.len() == 1 {
        s[0]
    } else {
        joined(s.drop_last(), d) + d + s.last()
    }
}

pub open spec fn wrapped(info: JoinInfo, s: Seq<Seq<char>>) -> Seq<char> {
    info.prefix@ + joined(s, info.delimiter@) + info.postfix@
}

fn join_range(records: &Vec<String>, from: usize, to: usize, info: &JoinInfo) -> (r: String)
    requires
        from <= to <= records@.len(),
    ensures
        r@ == wrapped(*info, texts(records@).subrange(from as int, to as int)),
{
    let ghost s = texts(records@);
    let mut out = chars_of(info.prefix.as_str());
    let ghost pre = out@;
    let d = chars_of(info.delimiter.as_str());
    let mut i: usize = from;
    while i < to
        invariant
            from <= i <= to <= records@.len(),
            s == texts(records@),
            d@ == info.delimiter@,
            pre == info.prefix@,
            out@ == pre + joined(s.subrange(from as int, i as int), d@),
        decreases to - i,
    {
        let ghost prev = s.subrange(from as int, i as int);
        if i > from {
            extend_chars(&mut out, &d);
        }
        let item = chars_of(records[i].as_str());
        extend_chars(&mut out, &item);
        i += 1;
        proof {
            let cur = s.subrange(from as int, i as int);
            assert(cur.drop_last() =~= prev);
            assert(cur.last() == s[i - 1]);
            if prev.len() == 0 {
                assert(joined(cur, d@) == cur[0]);
            }
            assert(out@ =~= pre + joined(cur, d@));
        }
    }
    let post = chars_of(info.postfix.as_str());
    extend_chars(&mut out, &post);
    string_of(&out)
}

/// All records joined into one: the prefix, the records with the delimiter
/// between them, and the postfix.
pub fn join_all(records: &Vec<String>, info: &JoinInfo) -> (r: String)
    ensures
        r@ == wrapped(*info, texts(records@)),
{
    let r = join_range(records, 0, records.len(), info);
    assert(texts(records@).subrange(0, records@.len() as int) =~= texts(records@));
    r
}

/// The records joined by consecutive groups of `batch`; the last group may be shorter.
pub open spec fn chunk_joined(info: JoinInfo, s: Seq<Seq<char>>, batch: nat) -> Seq<Seq<char>>
    decreases s.len(),
{
    if s.len() == 0 || batch == 0 {
        Seq::empty()
    } else if s.len() <= batch {
        seq![wrapped(info, s)]
    } else {
        seq![wrapped(info, s.subrange(0, batch as int))] + chunk_joined(
            info,
            s.subrange(batch as int, s.len() as int),
            batch,
        )
    }
}

/// One joined record for each consecutive group of `batch` records.
pub fn join_chunks(records: &Vec<String>, info: &JoinInfo, batch: usize) -> (r: Vec<String>)
    requires
        batch > 0,
    ensures
        texts(r@) == chunk_joined(*info, texts(records@), batch as nat),
{
    let ghost s = texts(records@);
    let mut out: Vec<String> = Vec::new();
    let mut i: usize = 0;
    let n = records.len();
    proof {
        assert(s.subrange(0, n as int) =~= s);
        assert(texts(out@) + chunk_joined(*info, s, batch as nat) =~= chunk_joined(*info, s, batch as nat));
    }
    while i < n
        invariant
            0 <= i <= n,
            n == records@.len(),
            batch > 0,
            s == texts(records@),
            texts(out@) + chunk_joined(*info, s.subrange(i as int, n as int), batch as nat) == chunk_joined(
                *info,
                s,
                batch as nat,
            ),
        decreases n - i,
    {
        let end = if n - i <= batch {
            n
        } else {
            i + batch
        };
        let piece = join_range(records, i, end, info);
        let ghost prev = texts(out@);
        let ghost rest = s.subrange(i as int, n as int);
        out.push(piece);
        proof {
            assert(texts(out@) =~= prev.push(piece@));
            if rest.len() <= batch {
                assert(rest.subrange(0, rest.len() as int) =~= rest);
                assert(s.subrange(end as int, n as int) =~= Seq::<Seq<char>>::empty());
                assert(rest =~= s.subrange(i as int, end as int));
            } else {
                assert(rest.subrange(0, batch as int) =~= s.subrange(i as int, end as int));
                assert(rest.subrange(batch as int, rest.len() as int) =~= s.subrange(
                    end as int,
                    n as int,
                ));
            }
            assert(texts(out@) + chunk_joined(*info, s.subrange(end as int, n as int), batch as nat)
                =~= prev + chunk_joined(*info, rest, batch as nat));
        }
        i = end;
    }
    proof {
        assert(s.subrange(n as int, n as int) =~= Seq::<Seq<char>>::empty());
        assert(texts(out@) + Seq::<Seq<char>>::empty() =~= texts(out@));
    }
    out
}

/// Which records a condition lets through.
#[derive(Debug, Clone, Copy, PartialEq, Eq, Structural)]
pub enum TakeDropMode {
    Take,
    Drop,
    TakeWhile,
    DropWhile,
}

/// Keeps the records that satisfy `cond` (`Take`) or that do not (`Drop`);
/// `TakeWhile` keeps the records before the first one that fails, and
/// `DropWhile` the records from the first one that fails on.
pub fn take_drop(records: &Vec<String>, mode: TakeDropMode, cond: &Condition) -> (r: Vec<String>)
    ensures
        mode == TakeDropMode::Take ==> texts(r@) == keep_where(
            texts(records@),
            |i: int| holds(cond, texts(records@)[i]),
            records@.len() as int,
        ),
        mode == TakeDropMode::Drop ==> texts(r@) == keep_where(
            texts(records@),
            |i: int| !holds(cond, texts(records@)[i]),
            records@.len() as int,
        ),
        mode == TakeDropMode::TakeWhile ==> {
            &&& r@.len() <= records@.len()
            &&& texts(r@) == texts(records@).subrange(0, r@.len() as int)
            &&& forall|i: int| 0 <= i < r@.len() ==> holds(cond, #[trigger] texts(records@)[i])
            &&& r@.len() < records@.len() ==> !holds(cond, texts(records@)[r@.len() as int])
        },
        mode == TakeDropMode::DropWhile ==> {
            let p = records@.len() - r@.len();
            &&& r@.len() <= records@.len()
            &&& texts(r@) == texts(records@).subrange(p, records@.len() as int)
            &&& forall|i: int| 0 <= i < p ==> holds(cond, #[trigger] texts(records@)[i])
            &&& p < records@.len() ==> !holds(cond, texts(records@)[p])
        },
{
    let ghost s = texts(records@);
    let n = records.len();
    let mut out: Vec<String> = Vec::new();
    match mode {
        TakeDropMode::Take | TakeDropMode::Drop => {
            let want = mode == TakeDropMode::Take;
            let ghost keep = |i: int| holds(cond, s[i]) == want;
            let mut i: usize = 0;
            while i < n
                invariant
                    0 <= i <= n,
                    n == records@.len(),
                    s == texts(records@),
                    keep == (|i: int| holds(cond, s[i]) == want),
                    texts(out@) == keep_where(s, keep, i as int),
                decreases n - i,
            {
                if cond.test(records[i].as_str()) == want {
                    out.push(records[i].clone());
                }
                i += 1;
                assert(texts(out@) =~= keep_where(s, keep, i as int));
            }
            proof {
                if want {
                    assert(keep =~= (|i: int| holds(cond, s[i])));
                } else {
                    assert(keep =~= (|i: int| !holds(cond, s[i])));
                }
            }
        },
        TakeDropMode::TakeWhile | TakeDropMode::DropWhile => {
            let mut p: usize = 0;
            while p < n && cond.test(records[p].as_str())
                invariant
                    0 <= p <= n,
                    n == records@.len(),
                    s == texts(records@),
                    forall|i: int| 0 <= i < p ==> holds(cond, #[trigger] s[i]),
                decreases n - p,
            {
                p += 1;
            }
            let (from, to) = if mode == TakeDropMode::TakeWhile {
                (0, p)
            } else {
                (p, n)
            };
            let mut i: usize = from;
            while i < to
                invariant
                    from <= i <= to <= n,
                    n == records@.len(),
                    s == texts(records@),
                    texts(out@) == s.subrange(from as int, i as int),
                decreases to - i,
            {
                let ghost prev = texts(out@);
                out.push(records[i].clone());
                assert(texts(out@) =~= prev.push(s[i as int]));
                i += 1;
                assert(texts(out@) =~= s.subrange(from as int, i as int));
            }
        },
    }
    out
}

/// The number of records, as text.
pub fn count(records: &Vec<String>) -> (r: String)
    ensures
        r@ == int_text(records@.len() as int),
{
    int_to_text(records.len() as i128)
}

/// The integer a record stands for in a sum: its value, or zero where it reads as none.
pub open spec fn value_or_zero(s: Seq<char>) -> int {
    match parse_i64_spec(s) {
        Some(v) => v as int,
        None => 0,
    }
}

pub open spec fn sum_of(s: Seq<Seq<char>>) -> int
    decreases s.len(),
{
    if s.len() == 0 {
        0
    } else {
        sum_of(s.drop_last()) + value_or_zero(s.last())
    }
}

/// The placeholder that a sum template replaces with the total.
pub open spec fn placeholder() -> Seq<char> {
    seq!['{', 'v', '}']
}

/// The total of the records that read as integers, written out plainly or,
/// with a template, in place of each `{v}` of it.
pub fn sum(records: &Vec<String>, fmt: &Option<String>) -> (r: String)
    ensures
        fmt is None ==> r@ == int_text(sum_of(texts(records@))),
        fmt matches Some(f) ==> r@ == replaced(f@, placeholder(), int_text(sum_of(texts(records@))), None, false),
{
    let ghost s = texts(records@);
    let n = records.len();
    let mut acc: i128 = 0;
    let mut i: usize = 0;
    while i < n
        invariant
            0 <= i <= n,
            n == records@.len(),
            s == texts(records@),
            acc == sum_of(s.subrange(0, i as int)),
            -(i as int) * 9223372036854775808 <= acc <= (i as int) * 9223372036854775807,
        decreases n - i,
    {
        let t = chars_of(records[i].as_str());
        let v: i64 = match parse_integer(&t) {
            Some(v) => v,
            None => 0,
        };
        proof {
            let ii = i as int;
            assert(ii + 1 <= 18446744073709551615);
            assert(-(ii + 1) * 9223372036854775808 == -ii * 9223372036854775808 - 9223372036854775808) by (nonlinear_arith);
            assert((ii + 1) * 9223372036854775807 == ii * 9223372036854775807 + 9223372036854775807) by (nonlinear_arith);
            assert((ii + 1) * 9223372036854775807 <= 18446744073709551615 * 9223372036854775807) by (nonlinear_arith)
                requires ii + 1 <= 18446744073709551615;
            assert(-(ii + 1) * 9223372036854775808 >= -18446744073709551615 * 9223372036854775808) by (nonlinear_arith)
                requires ii + 1 <= 18446744073709551615;
        }
        acc = acc + v as i128;
        i += 1;
        proof {
            let cur = s.subrange(0, i as int);
            assert(cur.drop_last() =~= s.subrange(0, i - 1));
            assert(cur.last() == t@);
        }
    }
    assert(s.subrange(0, n as int) =~= s);
    let total = int_to_text(acc);
    match fmt {
        None => total,
        Some(f) => {
            let key = String::from_str("{v}");
            proof {
                reveal_strlit("{v}");
                assert(key@ =~= placeholder());
            }
            replace_with_count_and_nocase(f.as_str(), key.as_str(), total.as_str(), None, false)
        },
    }
}

/// The records that `uniq` keeps of the first `n`.
pub open spec fn uniq_kept(s: Seq<Seq<char>>, nocase: bool, n: int) -> Seq<Seq<char>> {
    keep_where(s, |i: int| first_of_key(s, i, nocase), n)
}

proof fn lemma_uniq_step(s: Seq<Seq<char>>, nocase: bool, n: int)
    requires
        0 < n <= s.len(),
    ensures
        first_of_key(s, n - 1, nocase) ==> uniq_kept(s, nocase, n) == uniq_kept(s, nocase, n - 1).push(s[n - 1]),
        !first_of_key(s, n - 1, nocase) ==> uniq_kept(s, nocase, n) == uniq_kept(s, nocase, n - 1),
{
}

proof fn lemma_uniq_from(s: Seq<Seq<char>>, nocase: bool, n: int)
    requires
        0 <= n <= s.len(),
    ensures
        forall|j: int|
            0 <= j < uniq_kept(s, nocase, n).len() ==> exists|i: int|
                0 <= i < n && first_of_key(s, i, nocase) && #[trigger] uniq_kept(s, nocase, n)[j] == s[i],
    decreases n,
{
    if n > 0 {
        lemma_uniq_from(s, nocase, n - 1);
        lemma_uniq_step(s, nocase, n);
        let p = uniq_kept(s, nocase, n - 1);
        let r = uniq_kept(s, nocase, n);
        assert forall|j: int| 0 <= j < r.len() implies exists|i: int|
            0 <= i < n && first_of_key(s, i, nocase) && #[trigger] r[j] == s[i] by {
            if j < p.len() {
                assert(r[j] == p[j]);
                let i = choose|i: int| 0 <= i < n - 1 && first_of_key(s, i, nocase) && #[trigger] p[j] == s[i];
                assert(r[j] == s[i]);
            } else {
                assert(r[j] == s[n - 1]);
            }
        }
    }
}

proof fn lemma_uniq_distinct(s: Seq<Seq<char>>, nocase: bool, n: int)
    requires
        0 <= n <= s.len(),
    ensures
        forall|a: int, b: int|
            0 <= a < b < uniq_kept(s, nocase, n).len() ==> uniq_key(#[trigger] uniq_kept(s, nocase, n)[a], nocase)
                != uniq_key(#[trigger] uniq_kept(s, nocase, n)[b], nocase),
    decreases n,
{
    if n > 0 {
        lemma_uniq_distinct(s, nocase, n - 1);
        lemma_uniq_from(s, nocase, n - 1);
        lemma_uniq_step(s, nocase, n);
        let p = uniq_kept(s, nocase, n - 1);
        let r = uniq_kept(s, nocase, n);
        if first_of_key(s, n - 1, nocase) {
            assert forall|a: int, b: int| 0 <= a < b < r.len() implies uniq_key(#[trigger] r[a], nocase) != uniq_key(
                #[trigger] r[b],
                nocase,
            ) by {
                if b == r.len() - 1 {
                    assert(r[a] == p[a]);
                    let i = choose|i: int| 0 <= i < n - 1 && first_of_key(s, i, nocase) && #[trigger] p[a] == s[i];
                    assert(uniq_key(s[i], nocase) != uniq_key(s[n - 1], nocase));
                    assert(r[b] == s[n - 1]);
                } else {
                    assert(r[a] == p[a] && r[b] == p[b]);
                }
            }
        }
    }
}

proof fn lemma_uniq_covers(s: Seq<Seq<char>>, nocase: bool, n: int)
    requires
        0 <= n <= s.len(),
    ensures
        forall|i: int|
            #![trigger s[i]]
            0 <= i < n ==> exists|j: int|
                0 <= j < uniq_kept(s, nocase, n).len() && uniq_key(#[trigger] uniq_kept(s, nocase, n)[j], nocase)
                    == uniq_key(s[i], nocase),
    decreases n,
{
    if n > 0 {
        lemma_uniq_covers(s, nocase, n - 1);
        lemma_uniq_step(s, nocase, n);
        let p = uniq_kept(s, nocase, n - 1);
        let r = uniq_kept(s, nocase, n);
        assert forall|i: int| #![trigger s[i]] 0 <= i < n implies exists|j: int|
            0 <= j < r.len() && uniq_key(#[trigger] r[j], nocase) == uniq_key(s[i], nocase) by {
            if i < n - 1 {
                let j = choose|j: int| 0 <= j < p.len() && uniq_key(#[trigger] p[j], nocase) == uniq_key(s[i], nocase);
                assert(r[j] == p[j]);
            } else if first_of_key(s, n - 1, nocase) {
                assert(r[r.len() - 1] == s[n - 1]);
            } else {
                let k = choose|k: int| 0 <= k < n - 1 && uniq_key(#[trigger] s[k], nocase) == uniq_key(s[n - 1], nocase);
                let j = choose|j: int| 0 <= j < p.len() && uniq_key(#[trigger] p[j], nocase) == uniq_key(s[k], nocase);
                assert(r[j] == p[j]);
            }
        }
    }
}

/// What `uniq` keeps has no two records with the same key; each kept record
/// is, unchanged, the first record of its key; and every key of the input is
/// kept. The order is that of the input, as `keep_where` takes records in order.
pub proof fn lemma_uniq_distinct_first(s: Seq<Seq<char>>, nocase: bool)
    ensures
        forall|a: int, b: int|
            0 <= a < b < uniq_kept(s, nocase, s.len() as int).len() ==> uniq_key(
                #[trigger] uniq_kept(s, nocase, s.len() as int)[a],
                nocase,
            ) != uniq_key(#[trigger] uniq_kept(s, nocase, s.len() as int)[b], nocase),
        forall|j: int|
            0 <= j < uniq_kept(s, nocase, s.len() as int).len() ==> exists|i: int|
                0 <= i < s.len() && first_of_key(s, i, nocase) && #[trigger] uniq_kept(s, nocase, s.len() as int)[j]
                    == s[i],
        forall|i: int|
            #![trigger s[i]]
            0 <= i < s.len() ==> exists|j: int|
                0 <= j < uniq_kept(s, nocase, s.len() as int).len() && uniq_key(
                    #[trigger] uniq_kept(s, nocase, s.len() as int)[j],
                    nocase,
                ) == uniq_key(s[i], nocase),
{
    lemma_uniq_distinct(s, nocase, s.len() as int);
    lemma_uniq_from(s, nocase, s.len() as int);
    lemma_uniq_covers(s, nocase, s.len() as int);
}

} // verus!
