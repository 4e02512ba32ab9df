use vstd::prelude::*;

verus! {

/// The values `start`, `start + step`, ... that lie below `bound`.
pub open spec fn term_count(start: int, bound: int, step: int) -> nat
    recommends
        step > 0,
{
    if start >= bound {
        0
    } else {
        ((bound - start + step - 1) / step) as nat
    }
}

/// How many values `start`, `start + step`, ... a run has: with a positive
/// step those below `end`, with a negative step those above `end`; `end`
/// itself counts too when `included`.
pub open spec fn gen_count(start: int, end: int, included: bool, step: int) -> nat {
    let inc = if included { 1int } else { 0int };
    if step > 0 {
        term_count(start, end + inc, step)
    } else {
        term_count(-start, -(end - inc), -step)
    }
}

/// The run `start`, `start + step`, `start + 2 * step`, ... for as long as the
/// value lies below `end` (with a positive step) or above it (with a negative
/// one), `end` itself included when `included`. A zero step is refused.
pub fn range_to_iter(start: i64, end: i64, included: bool, step: i64) -> (r: Option<IntegerIter>)
    ensures
        step == 0 <==> r is None,
        r matches Some(it) ==> {
            &&& it.wf()
            &&& it.remaining().len() == gen_count(start as int, end as int, included, step as int)
            &&& forall|k: int| 0 <= k < it.remaining().len() ==> #[trigger] it.remaining()[k] == start + k * step
        },
{
    if step == 0 {
        return None;
    }
    let st = start as i128;
    let inc: i128 = if included {
        1
    } else {
        0
    };
    let (s, dist): (i128, i128) = if step > 0 {
        (step as i128, end as i128 + inc - st)
    } else {
        (-(step as i128), st - (end as i128 - inc))
    };
    let count: i128 = if dist <= 0 {
        0
    } else {
        (dist + s - 1) / s
    };
    proof {
        if dist > 0 {
            assert(count * s >= dist) by (nonlinear_arith)
                requires
                    count as int == (dist + s - 1) as int / (s as int),
                    s > 0,
            ;
            assert(count * s < dist + s) by (nonlinear_arith)
                requires
                    count as int == (dist + s - 1) as int / (s as int),
                    s > 0,
                    dist > 0,
            ;
            assert(count >= 1) by (nonlinear_arith)
                requires
                    count as int == (dist + s - 1) as int / (s as int),
                    s > 0,
                    dist > 0,
            ;
            assert(count <= dist) by (nonlinear_arith)
                requires
                    count as int == (dist + s - 1) as int / (s as int),
                    s > 0,
                    dist > 0,
            ;
            assert((count - 1) * s < dist) by (nonlinear_arith)
                requires
                    count * s < dist + s,
            ;
        }
    }
    let front: i128 = if step > 0 {
        st
    } else {
        st + s - count * s
    };
    let back = front + count * s;
    let it = IntegerIter { front, back, step: s, rev: step < 0 };
    proof {
        assert((back - front) % (s as int) == 0) by (nonlinear_arith)
            requires
                back == front + count * s,
                s > 0,
        ;
        assert((back - front) / (s as int) == count) by (nonlinear_arith)
            requires
                back == front + count * s,
                s > 0,
        ;
        assert(count * s - s == (count - 1) * s) by (nonlinear_arith);
        let asc = it.ascending();
        assert(asc.len() == count);
        if step > 0 {
            assert forall|k: int| 0 <= k < it.remaining().len() implies #[trigger] it.remaining()[k] == start + k
                * step by {
                assert(asc[k] == front + k * s);
            }
        } else {
            assert forall|k: int| 0 <= k < it.remaining().len() implies #[trigger] it.remaining()[k] == start + k
                * step by {
                assert(it.remaining()[k] == asc[count - 1 - k]);
                assert(asc[count - 1 - k] == front + (count - 1 - k) * s);
                assert(front + (count - 1 - k) * s == st - k * s) by (nonlinear_arith)
                    requires
                        front == st + s - count * s,
                ;
                assert(k * (step as int) == -(k * s)) by (nonlinear_arith)
                    requires
                        step as int == -(s as int),
                ;
            }
        }
    }
    Some(it)
}

/// An arithmetic run of integers that can be taken from either end.
pub struct IntegerIter {
    front: i128,
    back: i128,
    step: i128,
    rev: bool,
}

impl IntegerIter {
    pub closed spec fn wf(&self) -> bool {
        &&& self.step > 0
        &&& self.front <= self.back
        &&& (self.back - self.front) % (self.step as int) == 0
        &&& i64::MIN <= self.front
        &&& self.back - self.step <= i64::MAX
        &&& self.back <= i64::MAX as int + self.step
        &&& self.step <= i64::MAX as int + 1
    }

    /// The values still to come, in the ascending order of the run.
    pub closed spec fn ascending(&self) -> Seq<int> {
        Seq::new(
            ((self.back - self.front) / (self.step as int)) as nat,
            |k: int| self.front + k * self.step,
        )
    }

    /// The values still to come, in the order `next` hands them out.
    pub open spec fn remaining(&self) -> Seq<int> {
        if self.descending() {
            self.ascending().reverse()
        } else {
            self.ascending()
        }
    }

    pub closed spec fn descending(&self) -> bool {
        self.rev
    }

    /// The next value, or `None` once the run is used up.
    pub fn next(&mut self) -> (r: Option<i64>)
        requires
            old(self).wf(),
        ensures
            final(self).wf(),
            final(self).descending() == old(self).descending(),
            old(self).remaining().len() == 0 ==> r is None && final(self).remaining() == old(self).remaining(),
            old(self).remaining().len() > 0 ==> r == Some(old(self).remaining()[0] as i64)
                && final(self).remaining() == old(self).remaining().drop_first(),
    {
        if self.rev {
            self.take_back()
        } else {
            self.take_front()
        }
    }

    /// The last value still to come, or `None` once the run is used up.
    pub fn next_back(&mut self) -> (r: Option<i64>)
        requires
            old(self).wf(),
        ensures
            final(self).wf(),
            final(self).descending() == old(self).descending(),
            old(self).remaining().len() == 0 ==> r is None && final(self).remaining() == old(self).remaining(),
            old(self).remaining().len() > 0 ==> r == Some(old(self).remaining().last() as i64)
                && final(self).remaining() == old(self).remaining().drop_last(),
    {
        if self.rev {
            self.take_front()
        } else {
            self.take_back()
        }
    }

    fn take_front(&mut self) -> (r: Option<i64>)
        requires
            old(self).wf(),
        ensures
            final(self).wf(),
            final(self).rev == old(self).rev,
            old(self).ascending().len() == 0 ==> r is None && final(self).ascending() == old(self).ascending(),
            old(self).ascending().len() > 0 ==> r == Some(old(self).ascending()[0] as i64)
                && final(self).ascending() == old(self).ascending().drop_first(),
    {
        let ghost a = self.ascending();
        if self.front >= self.back {
            proof {
                assert((self.back - self.front) / (self.step as int) == 0);
            }
            return None;
        }
        let v = self.front;
        proof {
            assert(self.back - self.front >= self.step) by (nonlinear_arith)
                requires
                    (self.back - self.front) % (self.step as int) == 0,
                    self.back - self.front > 0,
                    self.step > 0,
            ;
            assert(((self.back - self.front) / (self.step as int)) >= 1) by (nonlinear_arith)
                requires
                    self.back - self.front >= self.step,
                    self.step > 0,
            ;
        }
        self.front = self.front + self.step;
        proof {
            let n0 = (self.back - v) / (self.step as int);
            let st = self.step as int;
            assert((self.back - self.front) / st == n0 - 1) by (nonlinear_arith)
                requires
                    self.front == v + st,
                    (self.back - v) % st == 0,
                    n0 == (self.back - v) / st,
                    st > 0,
            ;
            assert((self.back - self.front) % st == 0) by (nonlinear_arith)
                requires
                    self.front == v + st,
                    (self.back - v) % st == 0,
                    st > 0,
            ;
            assert forall|k: int| 0 <= k < n0 - 1 implies #[trigger] self.ascending()[k] == a.drop_first()[k] by {
                assert(self.front + k * st == v + (k + 1) * st) by (nonlinear_arith)
                    requires
                        self.front == v + st,
                ;
            }
            assert(self.ascending() =~= a.drop_first());
            assert(a[0] == v);
        }
        Some(v as i64)
    }

    fn take_back(&mut self) -> (r: Option<i64>)
        requires
            old(self).wf(),
        ensures
            final(self).wf(),
            final(self).rev == old(self).rev,
            old(self).ascending().len() == 0 ==> r is None && final(self).ascending() == old(self).ascending(),
            old(self).ascending().len() > 0 ==> r == Some(old(self).ascending().last() as i64)
                && final(self).ascending() == old(self).ascending().drop_last(),
    {
        let ghost a = self.ascending();
        if self.front >= self.back {
            proof {
                assert((self.back - self.front) / (self.step as int) == 0);
            }
            return None;
        }
        let st = self.step;
        proof {
            assert(self.back - self.front >= self.step) by (nonlinear_arith)
                requires
                    (self.back - self.front) % (self.step as int) == 0,
                    self.back - self.front > 0,
                    self.step > 0,
            ;
        }
        let b0 = self.back;
        self.back = self.back - st;
        let v = self.back;
        proof {
            let n0 = (b0 - self.front) / (st as int);
            assert((self.back - self.front) / (st as int) == n0 - 1) by (nonlinear_arith)
                requires
                    self.back == b0 - st,
                    (b0 - self.front) % (st as int) == 0,
                    n0 == (b0 - self.front) / (st as int),
                    st > 0,
            ;
            assert((self.back - self.front) % (st as int) == 0) by (nonlinear_arith)
                requires
                    self.back == b0 - st,
                    (b0 - self.front) % (st as int) == 0,
                    st > 0,
            ;
            assert(n0 >= 1) by (nonlinear_arith)
                requires
                    b0 - self.front >= st,
                    n0 == (b0 - self.front) / (st as int),
                    st > 0,
            ;
            assert(self.front + (n0 - 1) * st == b0 - st) by (nonlinear_arith)
                requires
                    (b0 - self.front) % (st as int) == 0,
                    n0 == (b0 - self.front) / (st as int),
                    st > 0,
            ;
            assert(self.ascending() =~= a.drop_last());
            assert(a.last() == v);
        }
        Some(v as i64)
    }
}

} // verus!
