use vstd::prelude::*;

use crate::condition::holds;
use crate::config::{has_nocase, is_nocase, Config};
use crate::op::{
    change_case,
    first_of_key,
    in_ranges,
    in_ranges_exec,
    keep_where,
    same_key,
    texts,
    uniq_key,
    TakeDropMode,
};
use crate::pipeline::{op_result, op_wf, Op};
use crate::replace::replace_with_count_and_nocase;
use crate::text::chars_of;

verus! {

/// Whether a step can hand out its records one at a time, as they come.
pub open spec fn streams(op: &Op) -> bool {
    match op {
        Op::Peek(_) | Op::Case(_) | Op::Replace { .. } | Op::Trim(_) | Op::Reg(_) | Op::Slice { .. } | Op::Uniq {
            ..
        } | Op::TakeDrop { .. } => true,
        _ => false,
    }
}

/// One step of a pipeline fed record by record. What it has handed out is, at
/// every moment, what the step makes of the records it has been given.
pub struct Stage {
    op: Op,
    nocase: bool,
    open: bool,
    seen: Vec<Vec<char>>,
    index: usize,
    configs: Ghost<Seq<Config>>,
    input: Ghost<Seq<Seq<char>>>,
    output: Ghost<Seq<Seq<char>>>,
}

proof fn lemma_keep_agree(s1: Seq<Seq<char>>, k1: spec_fn(int) -> bool, s2: Seq<Seq<char>>, k2: spec_fn(int) -> bool, n: int)
    requires
        forall|i: int| 0 <= i < n ==> #[trigger] s1[i] == s2[i] && k1(i) == k2(i),
    ensures
        keep_where(s1, k1, n) == keep_where(s2, k2, n),
    decreases n,
{
    if n > 0 {
        lemma_keep_agree(s1, k1, s2, k2, n - 1);
        assert(s1[n - 1] == s2[n - 1]);
    }
}

impl Stage {
    /// The records given so far.
    pub closed spec fn given(&self) -> Seq<Seq<char>> {
        self.input@
    }

    /// The records handed out so far.
    pub closed spec fn handed(&self) -> Seq<Seq<char>> {
        self.output@
    }

    /// The global switches the step runs under.
    pub closed spec fn switches(&self) -> Seq<Config> {
        self.configs@
    }

    pub closed spec fn step(&self) -> &Op {
        &self.op
    }

    /// No record given from now on can be handed out.
    pub closed spec fn done(&self) -> bool {
        match &self.op {
            Op::TakeDrop { mode: TakeDropMode::TakeWhile, .. } => !self.open,
            Op::Slice { ranges } => forall|i: int| i >= self.index ==> !in_ranges(i, ranges@),
            _ => false,
        }
    }

    pub closed spec fn wf(&self) -> bool {
        &&& streams(&self.op)
        &&& op_wf(&self.op)
        &&& self.nocase == has_nocase(self.configs@)
        &&& self.index == self.input@.len()
        &&& op_result(&self.op, self.configs@, self.input@, self.output@)
        &&& (self.op matches Op::Uniq { .. } ==> self.seen@.len() == self.input@.len() && forall|j: int|
            0 <= j < self.input@.len() ==> (#[trigger] self.seen@[j])@ == self.input@[j])
        &&& (self.op matches Op::TakeDrop { mode: TakeDropMode::TakeWhile, .. } ==> (self.open <==> self.output@.len()
            == self.input@.len()))
        &&& (self.op matches Op::TakeDrop { mode: TakeDropMode::DropWhile, .. } ==> (self.open <==> self.output@.len()
            == 0))
    }

    /// A stage for a step that streams, under the global switches `configs`.
    pub fn new(op: Op, configs: &[Config]) -> (r: Stage)
        requires
            streams(&op),
            op_wf(&op),
        ensures
            r.wf(),
            *r.step() == op,
            r.switches() == configs@,
            r.given() == Seq::<Seq<char>>::empty(),
            r.handed() == Seq::<Seq<char>>::empty(),
    {
        let nocase = is_nocase(false, configs);
        let r = Stage {
            op,
            nocase,
            open: true,
            seen: Vec::new(),
            index: 0,
            configs: Ghost(configs@),
            input: Ghost(Seq::empty()),
            output: Ghost(Seq::empty()),
        };
        proof {
            let e = Seq::<Seq<char>>::empty();
            match &r.op {
                Op::Case(m) => {
                    assert(e.map_values(|t: Seq<char>| crate::op::case_spec(*m, t)) =~= e);
                },
                Op::Replace { from, to, count, nocase: nc } => {
                    assert(e.map_values(
                        |t: Seq<char>| crate::replace::replaced(t, from@, to@, *count, *nc || has_nocase(configs@)),
                    ) =~= e);
                },
                Op::Trim(arg) => {
                    assert(e.map_values(
                        |t: Seq<char>|
                            crate::trim::trim_spec(
                                arg.position(),
                                crate::trim::with_nocase(arg.kind(), has_nocase(configs@)),
                                t,
                            ),
                    ) =~= e);
                },
                Op::Reg(arg) => {
                    assert(e.map_values(
                        |t: Seq<char>|
                            crate::reg::concat_first(
                                crate::pattern::regex_found(arg.pattern(), t),
                                crate::reg::limit_of(arg.limit(), crate::pattern::regex_found(arg.pattern(), t).len()),
                            ),
                    ) =~= e);
                },
                Op::TakeDrop { mode, .. } => {
                    assert(e.subrange(0, 0) =~= e);
                },
                _ => {},
            }
        }
        r
    }

    /// How many records the stage has been given.
    pub fn count(&self) -> (r: usize)
        requires
            self.wf(),
        ensures
            r == self.given().len(),
    {
        self.index
    }

    /// Whether no record given from now on can be handed out, so the feed may stop.
    pub fn exhausted(&self) -> (r: bool)
        requires
            self.wf(),
        ensures
            r ==> self.done(),
    {
        match &self.op {
            Op::TakeDrop { mode: TakeDropMode::TakeWhile, .. } => !self.open,
            Op::Slice { ranges } => {
                let mut k: usize = 0;
                while k < ranges.len()
                    invariant
                        0 <= k <= ranges@.len(),
                        forall|j: int, i: int|
                            0 <= j < k && i >= self.index ==> !#[trigger] crate::op::in_range(i, ranges@[j]),
                    decreases ranges@.len() - k,
                {
                    let (a, b) = ranges[k];
                    let ended = match b {
                        Some(e) => e < self.index || match a {
                            Some(s) => s > e,
                            None => false,
                        },
                        None => false,
                    };
                    if !ended {
                        return false;
                    }
                    k += 1;
                }
                proof {
                    assert forall|i: int| i >= self.index implies !in_ranges(i, ranges@) by {
                        if in_ranges(i, ranges@) {
                            let j = choose|j: int| 0 <= j < ranges@.len() && crate::op::in_range(i, #[trigger] ranges@[j]);
                            assert(!crate::op::in_range(i, ranges@[j]));
                        }
                    }
                }
                true
            },
            _ => false,
        }
    }

    /// Gives the stage one more record; it hands out what the step makes of it.
    pub fn push(&mut self, record: String) -> (r: Vec<String>)
        requires
            old(self).wf(),
            old(self).given().len() < usize::MAX,
        ensures
            final(self).wf(),
            *final(self).step() == *old(self).step(),
            final(self).switches() == old(self).switches(),
            final(self).given() == old(self).given().push(record@),
            final(self).handed() == old(self).handed() + texts(r@),
            old(self).done() ==> r@.len() == 0 && final(self).done(),
    {
        let ghost s = self.input@;
        let ghost o = self.output@;
        let ghost n = s.len() as int;
        let ghost s2 = s.push(record@);
        let ghost cfg = self.configs@;
        let ghost x = record@;
        let mut out: Vec<String> = Vec::new();
        let index = self.index;
        let nocase = self.nocase;
        proof {
            assert(s2[n] == x);
            assert forall|i: int| 0 <= i < n implies #[trigger] s2[i] == s[i] by {}
        }
        match &self.op {
            Op::Peek(_) => {
                out.push(record);
                assert(o + texts(out@) =~= s2);
            },
            Op::Case(m) => {
                out.push(change_case(*m, record.as_str()));
                assert(o + texts(out@) =~= s2.map_values(|t: Seq<char>| crate::op::case_spec(*m, t)));
            },
            Op::Replace { from, to, count, nocase: nc } => {
                out.push(replace_with_count_and_nocase(record.as_str(), from.as_str(), to.as_str(), *count, *nc || nocase));
                assert(o + texts(out@) =~= s2.map_values(
                    |t: Seq<char>| crate::replace::replaced(t, from@, to@, *count, *nc || has_nocase(cfg)),
                ));
            },
            Op::Trim(arg) => {
                out.push(arg.trim(record, nocase));
                assert(o + texts(out@) =~= s2.map_values(
                    |t: Seq<char>|
                        crate::trim::trim_spec(arg.position(), crate::trim::with_nocase(arg.kind(), has_nocase(cfg)), t),
                ));
            },
            Op::Reg(arg) => {
                out.push(arg.replace(record.as_str()));
                assert(o + texts(out@) =~= s2.map_values(
                    |t: Seq<char>|
                        crate::reg::concat_first(
                            crate::pattern::regex_found(arg.pattern(), t),
                            crate::reg::limit_of(arg.limit(), crate::pattern::regex_found(arg.pattern(), t).len()),
                        ),
                ));
            },
            Op::Slice { ranges } => {
                if in_ranges_exec(index, ranges) {
                    out.push(record);
                }
                proof {
                    let k = |i: int| in_ranges(i, ranges@);
                    lemma_keep_agree(s2, k, s, k, n);
                    assert(o + texts(out@) =~= keep_where(s2, k, n + 1));
                }
            },
            Op::Uniq { nocase: nc } => {
                let key_nc = *nc || nocase;
                let cur = chars_of(record.as_str());
                let mut j: usize = 0;
                let mut dup = false;
                while j < self.seen.len()
                    invariant
                        0 <= j <= self.seen@.len(),
                        self.seen@.len() == n,
                        cur@ == x,
                        forall|q: int| 0 <= q < n ==> (#[trigger] self.seen@[q])@ == s[q],
                        !dup ==> forall|q: int| 0 <= q < j ==> uniq_key(#[trigger] s[q], key_nc) != uniq_key(x, key_nc),
                        dup ==> exists|q: int| 0 <= q < n && uniq_key(#[trigger] s[q], key_nc) == uniq_key(x, key_nc),
                    decreases self.seen@.len() - j,
                {
                    if !dup && same_key(&self.seen[j], &cur, key_nc) {
                        dup = true;
                    }
                    j += 1;
                }
                if !dup {
                    out.push(record);
                }
                self.seen.push(cur);
                proof {
                    let k2 = |i: int| first_of_key(s2, i, key_nc);
                    let k1 = |i: int| first_of_key(s, i, key_nc);
                    assert forall|i: int| 0 <= i < n implies #[trigger] s2[i] == s[i] && k2(i) == k1(i) by {
                        assert(s2[i] == s[i]);
                        if first_of_key(s2, i, key_nc) {
                            assert forall|q: int| 0 <= q < i implies uniq_key(#[trigger] s[q], key_nc) != uniq_key(s[i], key_nc) by {
                                assert(s2[q] == s[q]);
                            }
                        }
                        if first_of_key(s, i, key_nc) {
                            assert forall|q: int| 0 <= q < i implies uniq_key(#[trigger] s2[q], key_nc) != uniq_key(s2[i], key_nc) by {
                                assert(s2[q] == s[q]);
                            }
                        }
                    }
                    lemma_keep_agree(s2, k2, s, k1, n);
                    if dup {
                        let q = choose|q: int| 0 <= q < n && uniq_key(#[trigger] s[q], key_nc) == uniq_key(x, key_nc);
                        assert(s2[q] == s[q]);
                        assert(!first_of_key(s2, n, key_nc));
                    } else {
                        assert forall|q: int| 0 <= q < n implies uniq_key(#[trigger] s2[q], key_nc) != uniq_key(s2[n], key_nc) by {
                            assert(s2[q] == s[q]);
                        }
                    }
                    assert(o + texts(out@) =~= keep_where(s2, k2, n + 1));
                }
            },
            Op::TakeDrop { mode, cond } => {
                let m = *mode;
                let t = cond.test(record.as_str());
                if m == TakeDropMode::Take || m == TakeDropMode::Drop {
                    if t == (m == TakeDropMode::Take) {
                        out.push(record);
                    }
                    proof {
                        if m == TakeDropMode::Take {
                            let k = |i: int| holds(cond, s2[i]);
                            let k1 = |i: int| holds(cond, s[i]);
                            assert forall|i: int| 0 <= i < n implies #[trigger] s2[i] == s[i] && k(i) == k1(i) by {}
                            lemma_keep_agree(s2, k, s, k1, n);
                            assert(o + texts(out@) =~= keep_where(s2, k, n + 1));
                        } else {
                            let k = |i: int| !holds(cond, s2[i]);
                            let k1 = |i: int| !holds(cond, s[i]);
                            assert forall|i: int| 0 <= i < n implies #[trigger] s2[i] == s[i] && k(i) == k1(i) by {}
                            lemma_keep_agree(s2, k, s, k1, n);
                            assert(o + texts(out@) =~= keep_where(s2, k, n + 1));
                        }
                    }
                } else if m == TakeDropMode::TakeWhile {
                    if self.open && t {
                        out.push(record);
                        assert(o + texts(out@) =~= s2.subrange(0, n + 1));
                    } else {
                        self.open = false;
                        assert(o + texts(out@) =~= o);
                        assert(o =~= s2.subrange(0, o.len() as int));
                    }
                } else {
                    if self.open && t {
                        assert(o + texts(out@) =~= o);
                        assert(o =~= s2.subrange(n + 1, n + 1));
                    } else {
                        self.open = false;
                        out.push(record);
                        let ghost p: int = n - o.len() as int;
                        assert(o + texts(out@) =~= s2.subrange(p, n + 1));
                    }
                }
            },
            _ => {},
        }
        self.index = index + 1;
        self.input = Ghost(s2);
        self.output = Ghost(o + texts(out@));
        out
    }
}

/// Feeding a step record by record hands out, at every moment, exactly what
/// the step makes of the whole run of records given so far.
pub proof fn lemma_stage_matches_whole_run(st: &Stage)
    requires
        st.wf(),
    ensures
        op_result(st.step(), st.switches(), st.given(), st.handed()),
{
}

} // verus!
