use vstd::prelude::*;

use regex::Regex;

verus! {

#[verifier::external_type_specification]
#[verifier::external_body]
pub struct ExRegex(Regex);

/// Whether the regex crate accepts `pattern`.
pub uninterp spec fn regex_compiles(pattern: Seq<char>) -> bool;

/// Whether the regex of `pattern` matches somewhere in `text`.
pub uninterp spec fn regex_finds(pattern: Seq<char>, text: Seq<char>) -> bool;

/// The leftmost-first, non-overlapping matches of `pattern` in `text`, in order.
pub uninterp spec fn regex_found(pattern: Seq<char>, text: Seq<char>) -> Seq<Seq<char>>;

/// The text before and the text after the leftmost-first match, if there is one.
pub uninterp spec fn regex_split_first(pattern: Seq<char>, text: Seq<char>) -> Option<
    (Seq<char>, Seq<char>),
>;

/// A compiled regular expression together with the pattern it was compiled from.
/// Values are only made by `compile`, so the two always agree.
#[derive(Debug)]
pub struct Re {
    regex: Regex,
    source: String,
}

impl Re {
    /// The pattern this expression was compiled from.
    pub closed spec fn pattern(&self) -> Seq<char> {
        self.source@
    }

    /// Relies on `regex::Regex::new`: compiles `pattern`, or hands back the
    /// crate's error message where the crate rejects it.
    #[verifier::external_body]
    pub(crate) fn compile(pattern: &str) -> (r: Result<Re, String>)
        ensures
            r is Ok <==> regex_compiles(pattern@),
            r matches Ok(re) ==> re.pattern() == pattern@,
    {
        match Regex::new(pattern) {
            Ok(regex) => Ok(Re { regex, source: pattern.to_string() }),
            Err(err) => Err(err.to_string()),
        }
    }

    /// The pattern text, as given to `compile`.
    pub fn as_str(&self) -> (r: &str)
        ensures
            r@ == self.pattern(),
    {
        self.source.as_str()
    }

    /// Relies on `regex::Regex::is_match`: whether the expression matches somewhere in `text`.
    #[verifier::external_body]
    pub(crate) fn is_match(&self, text: &str) -> (r: bool)
        ensures
            r == regex_finds(self.pattern(), text@),
    {
        self.regex.is_match(text)
    }

    /// Relies on `regex::Regex::find_iter`: every non-overlapping match in `text`, in order.
    #[verifier::external_body]
    pub(crate) fn find_all(&self, text: &str) -> (r: Vec<String>)
        ensures
            r@.len() == regex_found(self.pattern(), text@).len(),
            forall|k: int| 0 <= k < r@.len() ==> #[trigger] r@[k]@ == regex_found(self.pattern(), text@)[k],
    {
        self.regex.find_iter(text).map(|m| m.as_str().to_string()).collect()
    }

    /// Relies on `regex::Regex::find`: the text before and after the first match.
    #[verifier::external_body]
    pub(crate) fn split_first(&self, text: &str) -> (r: Option<(String, String)>)
        ensures
            r matches Some((a, b)) ==> regex_split_first(self.pattern(), text@) == Some((a@, b@)),
            r is None ==> regex_split_first(self.pattern(), text@) is None,
            r matches Some((a, b)) ==> a@.len() + b@.len() <= text@.len() && a@ == text@.subrange(0, a@.len() as int)
                && b@ == text@.subrange(text@.len() - b@.len(), text@.len() as int),
    {
        match self.regex.find(text) {
            Some(m) => Some((text[..m.start()].to_string(), text[m.end()..].to_string())),
            None => None,
        }
    }
}

} // verus!
