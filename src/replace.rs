use vstd::prelude::*;

use crate::text::{chars_of, extend_chars, fold, string_of};

verus! {

/// Whether `f` occurs in `t` at position `i`, compared after folding.
pub open spec fn occurs_at(t: Seq<char>, i: int, f: Seq<char>, nocase: bool) -> bool {
    &&& 0 <= i
    &&& i + f.len() <= t.len()
    &&& forall|k: int| 0 <= k < f.len() ==> fold(#[trigger] t[i + k], nocase) == fold(f[k], nocase)
}

/// One fewer replacement left; `None` stands for no limit.
pub open spec fn spend(left: Option<usize>) -> Option<usize> {
    match left {
        Some(n) => Some((n - 1) as usize),
        None => None,
    }
}

pub open spec fn can_replace(left: Option<usize>) -> bool {
    match left {
        Some(n) => n > 0,
        None => true,
    }
}

/// The text `t` from position `i` on, with occurrences of `f` replaced by `to`
/// from left to right, without overlap, while replacements are left. An empty
/// `f` occurs at every boundary between characters and at both ends.
pub open spec fn replaced_from(
    t: Seq<char>,
    i: int,
    f: Seq<char>,
    to: Seq<char>,
    left: Option<usize>,
    nocase: bool,
) -> Seq<char>
    decreases t.len() - i,
{
    if i < 0 || i > t.len() {
        Seq::empty()
    } else if !can_replace(left) {
        t.subrange(i, t.len() as int)
    } else if f.len() == 0 {
        if i == t.len() {
            to
        } else {
            to + seq![t[i]] + replaced_from(t, i + 1, f, to, spend(left), nocase)
        }
    } else if i == t.len() {
        Seq::empty()
    } else if occurs_at(t, i, f, nocase) {
        to + replaced_from(t, i + f.len(), f, to, spend(left), nocase)
    } else {
        seq![t[i]] + replaced_from(t, i + 1, f, to, left, nocase)
    }
}

/// `t` with at most `count` occurrences of `f` (all of them for `None`) replaced by `to`.
pub open spec fn replaced(
    t: Seq<char>,
    f: Seq<char>,
    to: Seq<char>,
    count: Option<usize>,
    nocase: bool,
) -> Seq<char> {
    replaced_from(t, 0, f, to, count, nocase)
}

fn occurs_at_exec(t: &Vec<char>, i: usize, f: &Vec<char>, nocase: bool) -> (r: bool)
    requires
        i <= t@.len(),
    ensures
        r == occurs_at(t@, i as int, f@, nocase),
{
    if f.len() > t.len() - i {
        return false;
    }
    let mut k: usize = 0;
    while k < f.len()
        invariant
            i + f@.len() <= t@.len(),
            t@.len() <= usize::MAX,
            0 <= k <= f@.len(),
            forall|j: int| 0 <= j < k ==> fold(#[trigger] t@[i + j], nocase) == fold(f@[j], nocase),
        decreases f@.len() - k,
    {
        let (a, b) = if nocase {
            (crate::text::to_ascii_lower(t[i + k]), crate::text::to_ascii_lower(f[k]))
        } else {
            (t[i + k], f[k])
        };
        if a != b {
            return false;
        }
        k += 1;
    }
    true
}

proof fn lemma_step(
    t: Seq<char>,
    i: int,
    f: Seq<char>,
    to: Seq<char>,
    left: Option<usize>,
    nocase: bool,
)
    requires
        0 <= i < t.len(),
        can_replace(left),
    ensures
        f.len() == 0 ==> replaced_from(t, i, f, to, left, nocase) == to + seq![t[i]]
            + replaced_from(t, i + 1, f, to, spend(left), nocase),
        f.len() > 0 && occurs_at(t, i, f, nocase) ==> replaced_from(t, i, f, to, left, nocase)
            == to + replaced_from(t, i + f.len(), f, to, spend(left), nocase),
        f.len() > 0 && !occurs_at(t, i, f, nocase) ==> replaced_from(t, i, f, to, left, nocase)
            == seq![t[i]] + replaced_from(t, i + 1, f, to, left, nocase),
{
}

proof fn lemma_end(t: Seq<char>, i: int, f: Seq<char>, to: Seq<char>, left: Option<usize>, nocase: bool)
    requires
        0 <= i <= t.len(),
        !can_replace(left) || i == t.len(),
    ensures
        replaced_from(t, i, f, to, left, nocase) == if !can_replace(left) {
            t.subrange(i, t.len() as int)
        } else if f.len() == 0 {
            to
        } else {
            Seq::empty()
        },
{
}

fn step_left(left: Option<usize>) -> (r: Option<usize>)
    requires
        can_replace(left),
    ensures
        r == spend(left),
{
    match left {
        Some(n) => Some(n - 1),
        None => None,
    }
}

fn can_replace_exec(left: Option<usize>) -> (r: bool)
    ensures
        r == can_replace(left),
{
    match left {
        Some(n) => n > 0,
        None => true,
    }
}

/// Replaces at most `count` occurrences of `from` in `text` with `to`, from
/// left to right and without overlap (all of them when `count` is `None`).
/// With `nocase` ASCII letters match whatever their case; the replacement and
/// the rest of the text keep theirs.
pub fn replace_with_count_and_nocase(
    text: &str,
    from: &str,
    to: &str,
    count: Option<usize>,
    nocase: bool,
) -> (r: String)
    ensures
        r@ == replaced(text@, from@, to@, count, nocase),
{
    let t = chars_of(text);
    let f = chars_of(from);
    let tov = chars_of(to);
    let mut out: Vec<char> = Vec::new();
    let mut left = count;
    let mut i: usize = 0;
    while i < t.len() && can_replace_exec(left)
        invariant
            0 <= i <= t@.len(),
            out@ + replaced_from(t@, i as int, f@, tov@, left, nocase) == replaced(
                t@,
                f@,
                tov@,
                count,
                nocase,
            ),
        decreases t@.len() - i,
    {
        let ghost prev = out@;
        let ghost prev_left = left;
        let ghost i0 = i as int;
        proof {
            lemma_step(t@, i0, f@, tov@, left, nocase);
        }
        if f.len() == 0 {
            extend_chars(&mut out, &tov);
            out.push(t[i]);
            left = step_left(left);
            i += 1;
            assert(out@ + replaced_from(t@, i as int, f@, tov@, left, nocase) =~= prev
                + replaced_from(t@, i0, f@, tov@, prev_left, nocase));
        } else if occurs_at_exec(&t, i, &f, nocase) {
            extend_chars(&mut out, &tov);
            left = step_left(left);
            i += f.len();
            assert(out@ + replaced_from(t@, i as int, f@, tov@, left, nocase) =~= prev
                + replaced_from(t@, i0, f@, tov@, prev_left, nocase));
        } else {
            out.push(t[i]);
            i += 1;
            assert(out@ + replaced_from(t@, i as int, f@, tov@, left, nocase) =~= prev
                + replaced_from(t@, i0, f@, tov@, prev_left, nocase));
        }
    }
    proof {
        lemma_end(t@, i as int, f@, tov@, left, nocase);
    }
    if !can_replace_exec(left) {
        let mut j: usize = i;
        while j < t.len()
            invariant
                i <= j <= t@.len(),
                out@ + t@.subrange(j as int, t@.len() as int) == replaced(t@, f@, tov@, count, nocase),
            decreases t@.len() - j,
        {
            let ghost prev = out@;
            out.push(t[j]);
            j += 1;
            assert(out@ + t@.subrange(j as int, t@.len() as int) =~= prev + t@.subrange(
                (j - 1) as int,
                t@.len() as int,
            ));
        }
        assert(out@ =~= out@ + t@.subrange(j as int, t@.len() as int));
    } else if f.len() == 0 {
        extend_chars(&mut out, &tov);
    } else {
        assert(out@ =~= out@ + Seq::<char>::empty());
    }
    string_of(&out)
}

proof fn lemma_no_occurrence(t: Seq<char>, i: int, f: Seq<char>, to: Seq<char>, nocase: bool)
    requires
        0 <= i <= t.len(),
        f.len() > 0,
        forall|j: int| i <= j < t.len() ==> !occurs_at(t, j, f, nocase),
    ensures
        replaced_from(t, i, f, to, None, nocase) == t.subrange(i, t.len() as int),
    decreases t.len() - i,
{
    if i < t.len() {
        lemma_no_occurrence(t, i + 1, f, to, nocase);
        assert(seq![t[i]] + t.subrange(i + 1, t.len() as int) =~= t.subrange(i, t.len() as int));
    }
}

/// A replacement limited to zero occurrences hands the text back unchanged.
pub proof fn lemma_replace_zero_count(s: Seq<char>, f: Seq<char>, to: Seq<char>, nocase: bool)
    ensures
        replaced(s, f, to, Some(0), nocase) == s,
{
    assert(s.subrange(0, s.len() as int) =~= s);
}

/// Replacing all occurrences a second time changes nothing, provided `to`
/// holds no occurrence of `from` and the first pass left none behind.
pub proof fn lemma_replace_idempotent(s: Seq<char>, f: Seq<char>, to: Seq<char>)
    requires
        forall|i: int| !occurs_at(to, i, f, false),
        forall|i: int| !occurs_at(replaced(s, f, to, None, false), i, f, false),
    ensures
        replaced(replaced(s, f, to, None, false), f, to, None, false) == replaced(
            s,
            f,
            to,
            None,
            false,
        ),
{
    let r = replaced(s, f, to, None, false);
    if f.len() == 0 {
        assert(occurs_at(to, 0, f, false));
    }
    lemma_no_occurrence(r, 0, f, to, false);
    assert(r.subrange(0, r.len() as int) =~= r);
}

} // verus!
