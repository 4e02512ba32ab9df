use vstd::prelude::*;

use crate::num::{parse_i64_spec, parse_integer};
use crate::op::texts;
use crate::text::{chars_of, lower_seq, to_ascii_lower};
use rand::seq::SliceRandom;

verus! {

broadcast use vstd::seq_lib::group_to_multiset_ensures;

/// Lexicographic order on characters, which is the order of `String`'s
/// comparison on UTF-8 bytes.
pub open spec fn lex_lt(a: Seq<char>, b: Seq<char>) -> bool
    decreases a.len(),
{
    if a.len() == 0 {
        b.len() > 0
    } else if b.len() == 0 {
        false
    } else if a[0] < b[0] {
        true
    } else if a[0] == b[0] {
        lex_lt(a.drop_first(), b.drop_first())
    } else {
        false
    }
}

proof fn lemma_lex_irrefl(a: Seq<char>)
    ensures
        !lex_lt(a, a),
    decreases a.len(),
{
    if a.len() > 0 {
        lemma_lex_irrefl(a.drop_first());
    }
}

proof fn lemma_lex_trans(a: Seq<char>, b: Seq<char>, c: Seq<char>)
    requires
        lex_lt(a, b),
        lex_lt(b, c),
    ensures
        lex_lt(a, c),
    decreases a.len(),
{
    if a.len() > 0 && b.len() > 0 && c.len() > 0 && a[0] == b[0] && b[0] == c[0] {
        lemma_lex_trans(a.drop_first(), b.drop_first(), c.drop_first());
    }
}

proof fn lemma_lex_total(a: Seq<char>, b: Seq<char>)
    ensures
        a == b || lex_lt(a, b) || lex_lt(b, a),
    decreases a.len(),
{
    if a.len() > 0 && b.len() > 0 && a[0] == b[0] {
        lemma_lex_total(a.drop_first(), b.drop_first());
        if a.drop_first() == b.drop_first() {
            assert(a =~= seq![a[0]] + a.drop_first());
            assert(b =~= seq![b[0]] + b.drop_first());
        }
    } else if a.len() == 0 && b.len() == 0 {
        assert(a =~= b);
    }
}

/// The sort key of each record.
pub enum SortKeys {
    Num(Vec<i64>),
    Text(Vec<Vec<char>>),
}

pub enum KeysView {
    Num(Seq<i64>),
    Text(Seq<Seq<char>>),
}

impl SortKeys {
    pub open spec fn view(&self) -> KeysView {
        match self {
            SortKeys::Num(v) => KeysView::Num(v@),
            SortKeys::Text(v) => KeysView::Text(v@.map_values(|t: Vec<char>| t@)),
        }
    }
}

pub open spec fn keys_len(k: KeysView) -> nat {
    match k {
        KeysView::Num(v) => v.len(),
        KeysView::Text(v) => v.len(),
    }
}

/// Whether the key of record `a` comes strictly before that of record `b`.
pub open spec fn key_lt(k: KeysView, a: int, b: int, desc: bool) -> bool {
    match k {
        KeysView::Num(v) => if desc {
            v[b] < v[a]
        } else {
            v[a] < v[b]
        },
        KeysView::Text(v) => if desc {
            lex_lt(v[b], v[a])
        } else {
            lex_lt(v[a], v[b])
        },
    }
}

pub open spec fn key_eq(k: KeysView, a: int, b: int) -> bool {
    match k {
        KeysView::Num(v) => v[a] == v[b],
        KeysView::Text(v) => v[a] == v[b],
    }
}

/// Record `a` goes before record `b`: a smaller key, or an equal key and an earlier place.
pub open spec fn goes_before(k: KeysView, a: int, b: int, desc: bool) -> bool {
    key_lt(k, a, b, desc) || (key_eq(k, a, b) && a < b)
}

/// `p` lists each position below `n` exactly once.
pub open spec fn is_perm(p: Seq<int>, n: nat) -> bool {
    &&& p.len() == n
    &&& forall|k: int| 0 <= k < p.len() ==> 0 <= #[trigger] p[k] < n
    &&& forall|k: int, l: int| 0 <= k < l < p.len() ==> p[k] != p[l]
}

/// The order of `p` is that of a stable sort by the keys.
pub open spec fn stably_sorted(k: KeysView, p: Seq<int>, desc: bool) -> bool {
    forall|a: int, b: int| 0 <= a < b < p.len() ==> goes_before(k, #[trigger] p[a], #[trigger] p[b], desc)
}

proof fn lemma_key_facts(k: KeysView, a: int, b: int, c: int, desc: bool)
    requires
        0 <= a < keys_len(k),
        0 <= b < keys_len(k),
        0 <= c < keys_len(k),
    ensures
        !key_lt(k, a, a, desc),
        key_eq(k, a, b) ==> !key_lt(k, a, b, desc) && !key_lt(k, b, a, desc),
        key_lt(k, a, b, desc) && key_lt(k, b, c, desc) ==> key_lt(k, a, c, desc),
        key_lt(k, a, b, desc) && key_eq(k, b, c) ==> key_lt(k, a, c, desc),
        key_eq(k, a, b) && key_lt(k, b, c, desc) ==> key_lt(k, a, c, desc),
        key_eq(k, a, b) && key_eq(k, b, c) ==> key_eq(k, a, c),
        key_eq(k, a, b) || key_lt(k, a, b, desc) || key_lt(k, b, a, desc),
{
    match k {
        KeysView::Num(_) => {},
        KeysView::Text(v) => {
            lemma_lex_irrefl(v[a]);
            lemma_lex_irrefl(v[b]);
            lemma_lex_total(v[a], v[b]);
            if lex_lt(v[a], v[b]) && lex_lt(v[b], v[c]) {
                lemma_lex_trans(v[a], v[b], v[c]);
            }
            if lex_lt(v[c], v[b]) && lex_lt(v[b], v[a]) {
                lemma_lex_trans(v[c], v[b], v[a]);
            }
        },
    }
}

fn lex_lt_exec(a: &Vec<char>, b: &Vec<char>) -> (r: bool)
    ensures
        r == lex_lt(a@, b@),
{
    let mut i: usize = 0;
    assert(a@.subrange(0, a@.len() as int) =~= a@);
    assert(b@.subrange(0, b@.len() as int) =~= b@);
    while i < a.len() && i < b.len() && a[i] == b[i]
        invariant
            0 <= i <= a@.len(),
            i <= b@.len(),
            lex_lt(a@, b@) == lex_lt(a@.subrange(i as int, a@.len() as int), b@.subrange(i as int, b@.len() as int)),
        decreases a@.len() - i,
    {
        proof {
            let sa = a@.subrange(i as int, a@.len() as int);
            let sb = b@.subrange(i as int, b@.len() as int);
            assert(sa.drop_first() =~= a@.subrange(i + 1, a@.len() as int));
            assert(sb.drop_first() =~= b@.subrange(i + 1, b@.len() as int));
        }
        i += 1;
    }
    if i == a.len() {
        i < b.len()
    } else if i == b.len() {
        false
    } else {
        a[i] < b[i]
    }
}

fn key_lt_exec(keys: &SortKeys, a: usize, b: usize, desc: bool) -> (r: bool)
    requires
        a < keys_len(keys.view()),
        b < keys_len(keys.view()),
    ensures
        r == key_lt(keys.view(), a as int, b as int, desc),
{
    match keys {
        SortKeys::Num(v) => if desc {
            v[b] < v[a]
        } else {
            v[a] < v[b]
        },
        SortKeys::Text(v) => if desc {
            lex_lt_exec(&v[b], &v[a])
        } else {
            lex_lt_exec(&v[a], &v[b])
        },
    }
}

fn keys_count(keys: &SortKeys) -> (r: usize)
    ensures
        r == keys_len(keys.view()),
{
    match keys {
        SortKeys::Num(v) => v.len(),
        SortKeys::Text(v) => v.len(),
    }
}

/// The positions of the records in the order of a stable sort by `keys`.
pub fn sort_positions(keys: &SortKeys, desc: bool) -> (r: Vec<usize>)
    ensures
        is_perm(r@.map_values(|x: usize| x as int), keys_len(keys.view())),
        stably_sorted(keys.view(), r@.map_values(|x: usize| x as int), desc),
{
    let n = keys_count(keys);
    let ghost k = keys.view();
    let mut out: Vec<usize> = Vec::new();
    let mut i: usize = 0;
    while i < n
        invariant
            0 <= i <= n,
            n == keys_len(k),
            k == keys.view(),
            out@.len() == i,
            forall|a: int| 0 <= a < out@.len() ==> #[trigger] out@[a] < i,
            forall|a: int, b: int| 0 <= a < b < out@.len() ==> out@[a] != out@[b],
            forall|a: int, b: int| 0 <= a < b < out@.len() ==> goes_before(k, #[trigger] out@[a] as int, #[trigger] out@[b] as int, desc),
        decreases n - i,
    {
        let mut p: usize = 0;
        while p < out.len() && !key_lt_exec(keys, i, out[p], desc)
            invariant
                0 <= p <= out@.len(),
                out@.len() == i,
                i < n,
                n == keys_len(k),
                k == keys.view(),
                forall|a: int| 0 <= a < out@.len() ==> #[trigger] out@[a] < i,
                forall|a: int| 0 <= a < p ==> !key_lt(k, i as int, #[trigger] out@[a] as int, desc),
            decreases out@.len() - p,
        {
            p += 1;
        }
        let ghost old_out = out@;
        out.insert(p, i);
        proof {
            assert(out@ == old_out.insert(p as int, i));
            assert forall|a: int, b: int| 0 <= a < b < out@.len() implies goes_before(
                k,
                #[trigger] out@[a] as int,
                #[trigger] out@[b] as int,
                desc,
            ) by {
                let x = out@[a] as int;
                let y = out@[b] as int;
                if a == p {
                    // the new record before a later one
                    let q = p as int;
                    assert(y == old_out[b - 1] as int);
                    assert(key_lt(k, i as int, old_out[q] as int, desc));
                    if b - 1 > q {
                        assert(goes_before(k, old_out[q] as int, old_out[b - 1] as int, desc));
                        lemma_key_facts(k, i as int, old_out[q] as int, y, desc);
                    }
                } else if b == p {
                    assert(x == old_out[a] as int);
                    assert(!key_lt(k, i as int, x, desc));
                    lemma_key_facts(k, x, i as int, x, desc);
                } else {
                    let a0 = if a < p { a } else { a - 1 };
                    let b0 = if b < p { b } else { b - 1 };
                    assert(x == old_out[a0] as int);
                    assert(y == old_out[b0] as int);
                    assert(goes_before(k, old_out[a0] as int, old_out[b0] as int, desc));
                }
            }
            assert forall|a: int, b: int| 0 <= a < b < out@.len() implies out@[a] != out@[b] by {
                if a != p && b != p {
                    let a0 = if a < p { a } else { a - 1 };
                    let b0 = if b < p { b } else { b - 1 };
                    assert(out@[a] == old_out[a0]);
                    assert(out@[b] == old_out[b0]);
                } else if a == p {
                    assert(out@[b] == old_out[b - 1]);
                } else {
                    assert(out@[a] == old_out[a]);
                }
            }
            assert forall|a: int| 0 <= a < out@.len() implies #[trigger] out@[a] < i + 1 by {
                if a < p {
                    assert(out@[a] == old_out[a]);
                } else if a > p {
                    assert(out@[a] == old_out[a - 1]);
                }
            }
        }
        i += 1;
    }
    proof {
        let m = out@.map_values(|x: usize| x as int);
        assert forall|a: int, b: int| 0 <= a < b < m.len() implies goes_before(k, #[trigger] m[a], #[trigger] m[b], desc) by {
            assert(m[a] == out@[a] as int);
            assert(m[b] == out@[b] as int);
        }
        assert forall|a: int, b: int| 0 <= a < b < m.len() implies m[a] != m[b] by {
            assert(out@[a] != out@[b]);
        }
        assert forall|a: int| 0 <= a < m.len() implies 0 <= #[trigger] m[a] < n by {
            assert(out@[a] < n);
        }
    }
    out
}

/// The numeric key of each record: its integer value, or `default` where it reads as none.
pub open spec fn num_keys(s: Seq<Seq<char>>, default: i64) -> Seq<i64> {
    Seq::new(
        s.len(),
        |i: int|
            match parse_i64_spec(s[i]) {
                Some(v) => v,
                None => default,
            },
    )
}

/// The text key of each record, with ASCII letters folded to small ones for `nocase`.
pub open spec fn text_keys(s: Seq<Seq<char>>, nocase: bool) -> Seq<Seq<char>> {
    Seq::new(s.len(), |i: int| if nocase { lower_seq(s[i]) } else { s[i] })
}

/// `r` holds the records of `s` in the order `p` gives.
pub open spec fn arranged(r: Seq<Seq<char>>, s: Seq<Seq<char>>, p: Seq<int>) -> bool {
    r.len() == p.len() && forall|j: int| 0 <= j < r.len() ==> #[trigger] r[j] == s[p[j]]
}

fn arrange(records: &Vec<String>, pos: &Vec<usize>) -> (r: Vec<String>)
    requires
        forall|j: int| 0 <= j < pos@.len() ==> #[trigger] pos@[j] < records@.len(),
    ensures
        arranged(texts(r@), texts(records@), pos@.map_values(|x: usize| x as int)),
{
    let mut out: Vec<String> = Vec::new();
    let mut j: usize = 0;
    while j < pos.len()
        invariant
            0 <= j <= pos@.len(),
            forall|q: int| 0 <= q < pos@.len() ==> #[trigger] pos@[q] < records@.len(),
            out@.len() == j,
            forall|q: int| 0 <= q < j ==> #[trigger] texts(out@)[q] == texts(records@)[pos@[q] as int],
        decreases pos@.len() - j,
    {
        let ghost prev = out@;
        out.push(records[pos[j]].clone());
        proof {
            assert forall|q: int| 0 <= q <= j implies #[trigger] texts(out@)[q] == texts(records@)[pos@[q] as int] by {
                if q < j {
                    assert(out@[q] == prev[q]);
                    assert(texts(prev)[q] == texts(records@)[pos@[q] as int]);
                    assert(texts(out@)[q] == texts(prev)[q]);
                } else {
                    assert(out@[q] == records@[pos@[q] as int]);
                    assert(texts(out@)[q] == out@[q]@);
                }
            }
        }
        j += 1;
    }
    proof {
        let m = pos@.map_values(|x: usize| x as int);
        assert forall|q: int| 0 <= q < texts(out@).len() implies #[trigger] texts(out@)[q] == texts(records@)[m[q]] by {
            assert(m[q] == pos@[q] as int);
        }
    }
    out
}

/// Sorts the records by their integer value, those that read as none taking
/// `default`; equal keys keep their order, also with `desc`.
pub fn sort_num(records: &Vec<String>, default: i64, desc: bool) -> (r: Vec<String>)
    ensures
        exists|p: Seq<int>|
            is_perm(p, records@.len()) && stably_sorted(
                KeysView::Num(num_keys(texts(records@), default)),
                p,
                desc,
            ) && arranged(texts(r@), texts(records@), p),
{
    let ghost s = texts(records@);
    let mut keys: Vec<i64> = Vec::new();
    let mut i: usize = 0;
    while i < records.len()
        invariant
            0 <= i <= records@.len(),
            s == texts(records@),
            keys@ == num_keys(s, default).subrange(0, i as int),
        decreases records@.len() - i,
    {
        let t = chars_of(records[i].as_str());
        let v = match parse_integer(&t) {
            Some(v) => v,
            None => default,
        };
        keys.push(v);
        i += 1;
        assert(keys@ =~= num_keys(s, default).subrange(0, i as int));
    }
    assert(keys@ =~= num_keys(s, default));
    let keys = SortKeys::Num(keys);
    let pos = sort_positions(&keys, desc);
    proof {
        let m = pos@.map_values(|x: usize| x as int);
        assert forall|j: int| 0 <= j < pos@.len() implies #[trigger] pos@[j] < records@.len() by {
            assert(m[j] == pos@[j] as int);
        }
    }
    arrange(records, &pos)
}

/// Sorts the records by their text (ASCII letters folded with `nocase`);
/// equal keys keep their order, also with `desc`.
pub fn sort_text(records: &Vec<String>, nocase: bool, desc: bool) -> (r: Vec<String>)
    ensures
        exists|p: Seq<int>|
            is_perm(p, records@.len()) && stably_sorted(
                KeysView::Text(text_keys(texts(records@), nocase)),
                p,
                desc,
            ) && arranged(texts(r@), texts(records@), p),
{
    let ghost s = texts(records@);
    let mut keys: Vec<Vec<char>> = Vec::new();
    let mut i: usize = 0;
    while i < records.len()
        invariant
            0 <= i <= records@.len(),
            s == texts(records@),
            keys@.len() == i,
            forall|q: int| 0 <= q < i ==> (#[trigger] keys@[q])@ == text_keys(s, nocase)[q],
        decreases records@.len() - i,
    {
        let t = chars_of(records[i].as_str());
        let key = if nocase {
            let mut low: Vec<char> = Vec::new();
            let mut j: usize = 0;
            while j < t.len()
                invariant
                    0 <= j <= t@.len(),
                    low@ == lower_seq(t@).subrange(0, j as int),
                decreases t@.len() - j,
            {
                low.push(to_ascii_lower(t[j]));
                j += 1;
                assert(low@ =~= lower_seq(t@).subrange(0, j as int));
            }
            assert(low@ =~= lower_seq(t@));
            low
        } else {
            t
        };
        keys.push(key);
        i += 1;
    }
    assert(keys@.map_values(|t: Vec<char>| t@) =~= text_keys(s, nocase));
    let keys = SortKeys::Text(keys);
    let pos = sort_positions(&keys, desc);
    proof {
        let m = pos@.map_values(|x: usize| x as int);
        assert forall|j: int| 0 <= j < pos@.len() implies #[trigger] pos@[j] < records@.len() by {
            assert(m[j] == pos@[j] as int);
        }
    }
    arrange(records, &pos)
}

/// Relies on `rand::seq::SliceRandom::shuffle` with the thread's generator:
/// the same records, moved to places left to chance.
#[verifier::external_body]
fn shuffle_records(v: &mut Vec<String>)
    ensures
        exists|p: Seq<int>|
            is_perm(p, old(v)@.len()) && final(v)@.len() == p.len() && forall|j: int|
                0 <= j < p.len() ==> #[trigger] final(v)@[j] == old(v)@[p[j]],
{
    v.shuffle(&mut rand::rng())
}

/// The records in a random order: each one exactly once.
pub fn sort_random(records: Vec<String>) -> (r: Vec<String>)
    ensures
        exists|p: Seq<int>| is_perm(p, records@.len()) && arranged(texts(r@), texts(records@), p),
{
    let ghost s = records@;
    let mut v = records;
    shuffle_records(&mut v);
    proof {
        let p = choose|p: Seq<int>|
            is_perm(p, s.len()) && v@.len() == p.len() && forall|j: int|
                0 <= j < p.len() ==> #[trigger] v@[j] == s[p[j]];
        assert forall|j: int| 0 <= j < texts(v@).len() implies #[trigger] texts(v@)[j] == texts(s)[p[j]] by {
            assert(v@[j] == s[p[j]]);
        }
        assert(arranged(texts(v@), texts(s), p));
    }
    v
}

proof fn lemma_increasing_low(p: Seq<int>, j: int)
    requires
        0 <= j < p.len(),
        forall|k: int| 0 <= k < p.len() ==> 0 <= #[trigger] p[k],
        forall|a: int, b: int| 0 <= a < b < p.len() ==> #[trigger] p[a] < #[trigger] p[b],
    ensures
        p[j] >= j,
    decreases j,
{
    if j > 0 {
        lemma_increasing_low(p, j - 1);
        assert(p[j - 1] < p[j]);
    }
}

proof fn lemma_increasing_high(p: Seq<int>, j: int)
    requires
        0 <= j < p.len(),
        forall|k: int| 0 <= k < p.len() ==> #[trigger] p[k] < p.len(),
        forall|a: int, b: int| 0 <= a < b < p.len() ==> #[trigger] p[a] < #[trigger] p[b],
    ensures
        p[j] <= j,
    decreases p.len() - j,
{
    if j + 1 < p.len() {
        lemma_increasing_high(p, j + 1);
        assert(p[j] < p[j + 1]);
    }
}

/// Sorting by a key that is the same for every record keeps the records in
/// their order: the only stable arrangement is the identity.
pub proof fn lemma_constant_key_keeps_order(k: KeysView, p: Seq<int>, desc: bool)
    requires
        is_perm(p, keys_len(k)),
        stably_sorted(k, p, desc),
        forall|a: int, b: int| 0 <= a < keys_len(k) && 0 <= b < keys_len(k) ==> #[trigger] key_eq(k, a, b),
    ensures
        forall|j: int| 0 <= j < p.len() ==> #[trigger] p[j] == j,
{
    assert forall|a: int, b: int| 0 <= a < b < p.len() implies #[trigger] p[a] < #[trigger] p[b] by {
        assert(goes_before(k, p[a], p[b], desc));
        assert(key_eq(k, p[a], p[b]));
        lemma_key_facts(k, p[a], p[b], p[a], desc);
    }
    assert forall|j: int| 0 <= j < p.len() implies #[trigger] p[j] == j by {
        lemma_increasing_low(p, j);
        lemma_increasing_high(p, j);
    }
}

/// A stable sort by a key that every record shares hands the records back
/// unchanged: any `r` that `sort_num`, `sort_text` or a sort step may return
/// for such keys is `s` itself.
pub proof fn lemma_sorted_by_constant_key_is_input(k: KeysView, s: Seq<Seq<char>>, r: Seq<Seq<char>>, desc: bool)
    requires
        keys_len(k) == s.len(),
        forall|a: int, b: int| 0 <= a < keys_len(k) && 0 <= b < keys_len(k) ==> #[trigger] key_eq(k, a, b),
        exists|p: Seq<int>| is_perm(p, s.len()) && stably_sorted(k, p, desc) && arranged(r, s, p),
    ensures
        r == s,
{
    let p = choose|p: Seq<int>| is_perm(p, s.len()) && stably_sorted(k, p, desc) && arranged(r, s, p);
    lemma_constant_key_keeps_order(k, p, desc);
    assert forall|j: int| 0 <= j < r.len() implies #[trigger] r[j] == s[j] by {
        assert(r[j] == s[p[j]]);
        assert(p[j] == j);
    }
    assert(r =~= s);
}

} // verus!
