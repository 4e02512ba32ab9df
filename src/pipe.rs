use vstd::prelude::*;

use crate::op::{keep_where, texts};

verus! {

/// The records flowing from one step to the next.
pub struct Pipe {
    pub items: Vec<String>,
}

impl Pipe {
    pub fn new(items: Vec<String>) -> (r: Pipe)
        ensures
            r.items == items,
    {
        Pipe { items }
    }

    /// Each record replaced by what `f` makes of it.
    pub fn op_map<F: Fn(String) -> String>(self, f: F) -> (r: Pipe)
        requires
            forall|x: String| f.requires((x,)),
        ensures
            r.items@.len() == self.items@.len(),
            forall|i: int| 0 <= i < self.items@.len() ==> f.ensures((self.items@[i],), #[trigger] r.items@[i]),
    {
        let mut out: Vec<String> = Vec::new();
        let mut i: usize = 0;
        while i < self.items.len()
            invariant
                0 <= i <= self.items@.len(),
                forall|x: String| f.requires((x,)),
                out@.len() == i,
                forall|j: int| 0 <= j < i ==> f.ensures((self.items@[j],), #[trigger] out@[j]),
            decreases self.items@.len() - i,
        {
            let y = f(self.items[i].clone());
            out.push(y);
            i += 1;
        }
        Pipe { items: out }
    }

    /// The records for which `f` answers `true`, in order.
    pub fn op_filter<F: Fn(&String) -> bool>(self, f: F) -> (r: Pipe)
        requires
            forall|x: &String| f.requires((x,)),
        ensures
            exists|keep: Seq<bool>|
                keep.len() == self.items@.len() && (forall|i: int|
                    0 <= i < keep.len() ==> f.ensures((&self.items@[i],), #[trigger] keep[i])) && texts(r.items@)
                    == #[trigger] kept_by(texts(self.items@), keep),
    {
        let ghost s = texts(self.items@);
        let mut out: Vec<String> = Vec::new();
        let ghost mut keep: Seq<bool> = Seq::empty();
        let mut i: usize = 0;
        while i < self.items.len()
            invariant
                0 <= i <= self.items@.len(),
                s == texts(self.items@),
                forall|x: &String| f.requires((x,)),
                keep.len() == i,
                forall|j: int| 0 <= j < i ==> f.ensures((&self.items@[j],), #[trigger] keep[j]),
                texts(out@) == keep_where(s, |j: int| keep[j], i as int),
            decreases self.items@.len() - i,
        {
            let b = f(&self.items[i]);
            let ghost old_keep = keep;
            proof {
                keep = keep.push(b);
                lemma_keep_prefix(s, |q: int| keep[q], |q: int| old_keep[q], i as int, i as int);
            }
            if b {
                let ghost prev = texts(out@);
                out.push(self.items[i].clone());
                assert(texts(out@) =~= prev.push(s[i as int]));
            }
            i += 1;
        }
        assert(texts(out@) == kept_by(s, keep));
        Pipe { items: out }
    }

    /// The same records, after `f` has seen each of them in order.
    pub fn op_inspect<F: Fn(&String)>(self, f: F) -> (r: Pipe)
        requires
            forall|x: &String| f.requires((x,)),
        ensures
            r.items@ == self.items@,
    {
        let mut i: usize = 0;
        while i < self.items.len()
            invariant
                0 <= i <= self.items@.len(),
                forall|x: &String| f.requires((x,)),
            decreases self.items@.len() - i,
        {
            f(&self.items[i]);
            i += 1;
        }
        self
    }
}

/// The records whose entry in `keep` is `true`, in order.
pub open spec fn kept_by(s: Seq<Seq<char>>, keep: Seq<bool>) -> Seq<Seq<char>> {
    keep_where(s, |i: int| keep[i], s.len() as int)
}

proof fn lemma_keep_prefix(s: Seq<Seq<char>>, a: spec_fn(int) -> bool, b: spec_fn(int) -> bool, n: int, m: int)
    requires
        n <= m,
        forall|q: int| 0 <= q < m ==> #[trigger] a(q) == b(q),
    ensures
        keep_where(s, a, n) == keep_where(s, b, n),
    decreases n,
{
    if n > 0 {
        lemma_keep_prefix(s, a, b, n - 1, m);
    }
}

} // verus!
