use vstd::prelude::*;

use crate::err::RpErr;
use crate::pattern::{regex_compiles, regex_found, Re};
use crate::text::{chars_of, extend_chars, string_of};

verus! {

/// The concatenation of the first `n` pieces (all of them if there are fewer).
pub open spec fn concat_first(pieces: Seq<Seq<char>>, n: int) -> Seq<char>
    decreases n,
{
    if n <= 0 || pieces.len() == 0 {
        Seq::empty()
    } else if n > pieces.len() {
        concat_first(pieces, pieces.len() as int)
    } else {
        concat_first(pieces, n - 1) + pieces[n - 1]
    }
}

pub open spec fn limit_of(count: Option<usize>, len: nat) -> int {
    match count {
        Some(c) => if c < len {
            c as int
        } else {
            len as int
        },
        None => len as int,
    }
}

/// Extraction by a regular expression: a record becomes the concatenation of
/// its first `count` matches (all of them for `None`).
#[derive(Debug)]
pub struct RegArg {
    regex: Re,
    count: Option<usize>,
}

impl RegArg {
    pub closed spec fn pattern(&self) -> Seq<char> {
        self.regex.pattern()
    }

    pub closed spec fn limit(&self) -> Option<usize> {
        self.count
    }

    pub fn new(reg: String, count: Option<usize>) -> (r: Result<RegArg, RpErr>)
        ensures
            r is Ok <==> regex_compiles(reg@),
            r matches Ok(a) ==> a.pattern() == reg@ && a.limit() == count,
            r matches Err(e) ==> e matches RpErr::ParseRegexErr { reg: g, .. } && g@ == reg@,
    {
        match Re::compile(reg.as_str()) {
            Ok(regex) => Ok(RegArg { regex, count }),
            Err(err) => Err(RpErr::ParseRegexErr { reg, err }),
        }
    }

    /// The first `count` matches in `text`, one after the other; empty when nothing matches.
    pub fn replace(&self, text: &str) -> (r: String)
        ensures
            r@ == concat_first(
                regex_found(self.pattern(), text@),
                limit_of(self.limit(), regex_found(self.pattern(), text@).len()),
            ),
    {
        let found = self.regex.find_all(text);
        let ghost pieces = regex_found(self.pattern(), text@);
        let n = match self.count {
            Some(c) => if c < found.len() {
                c
            } else {
                found.len()
            },
            None => found.len(),
        };
        let mut out: Vec<char> = Vec::new();
        let mut i: usize = 0;
        while i < n
            invariant
                0 <= i <= n <= found@.len(),
                found@.len() == pieces.len(),
                forall|k: int| 0 <= k < found@.len() ==> #[trigger] found@[k]@ == pieces[k],
                out@ == concat_first(pieces, i as int),
            decreases n - i,
        {
            let piece = chars_of(found[i].as_str());
            extend_chars(&mut out, &piece);
            i += 1;
        }
        string_of(&out)
    }

    /// Two extractions are equal when their patterns and counts are.
    pub fn same_as(&self, other: &RegArg) -> (r: bool)
        ensures
            r == (self.pattern() == other.pattern() && self.limit() == other.limit()),
    {
        let same = crate::text::same_text(self.regex.as_str(), other.regex.as_str());
        same && self.count == other.count
    }
}

impl PartialEq for RegArg {
    fn eq(&self, other: &RegArg) -> (r: bool) {
        self.same_as(other)
    }
}

impl vstd::std_specs::cmp::PartialEqSpecImpl for RegArg {
    open spec fn obeys_eq_spec() -> bool {
        true
    }

    open spec fn eq_spec(&self, other: &RegArg) -> bool {
        self.pattern() == other.pattern() && self.limit() == other.limit()
    }
}

} // verus!
