use vstd::prelude::*;

use crate::err::RpErr;
use crate::num::{parse_i64_spec, parse_integer};
use crate::pattern::Re;
use crate::text::chars_of;

verus! {

/// Characters with the Unicode `White_Space` property, as `char::is_whitespace` lists them.
pub open spec fn is_white(c: char) -> bool {
    ('\u{9}' <= c && c <= '\u{d}') || c == ' ' || c == '\u{85}' || c == '\u{a0}' || c == '\u{1680}'
        || ('\u{2000}' <= c && c <= '\u{200a}') || c == '\u{2028}' || c == '\u{2029}' || c == '\u{202f}'
        || c == '\u{205f}' || c == '\u{3000}'
}

pub fn is_white_exec(c: char) -> (r: bool)
    ensures
        r == is_white(c),
{
    ('\u{9}' <= c && c <= '\u{d}') || c == ' ' || c == '\u{85}' || c == '\u{a0}' || c == '\u{1680}'
        || ('\u{2000}' <= c && c <= '\u{200a}') || c == '\u{2028}' || c == '\u{2029}' || c == '\u{202f}'
        || c == '\u{205f}' || c == '\u{3000}'
}

pub open spec fn is_ascii_char(c: char) -> bool {
    (c as u32) < 128
}

/// What a condition looks at in one record.
pub enum Select {
    /// The number of characters lies within the bounds that are given.
    TextLenRange { min: Option<usize>, max: Option<usize> },
    /// The number of characters is exactly `spec`.
    TextLenSpec { spec: usize },
    /// The record reads as an integer within the bounds that are given.
    NumRange { min: Option<i64>, max: Option<i64> },
    /// The record reads as the integer `spec`.
    NumSpec { spec: i64 },
    /// The record reads as an integer.
    IsInteger,
    /// No character of the other case: none lowercase for `upper`, none uppercase
    /// otherwise (Unicode case; characters without case satisfy both).
    TextAllCase { upper: bool },
    /// Every character is ASCII (`ascii`), or none is.
    Ascii { ascii: bool },
    /// The record is empty (`empty`), or consists of white space only.
    TextEmptyOrBlank { empty: bool },
    /// The whole record matches the expression.
    RegMatch { regex: Re },
}

/// A selection, kept as it is or negated.
pub enum Condition {
    Yes(Select),
    No(Select),
}

pub open spec fn within(v: int, min: Option<int>, max: Option<int>) -> bool {
    (match min {
        Some(lo) => lo <= v,
        None => true,
    }) && (match max {
        Some(hi) => v <= hi,
        None => true,
    })
}

pub open spec fn opt_int_usize(o: Option<usize>) -> Option<int> {
    match o {
        Some(v) => Some(v as int),
        None => None,
    }
}

pub open spec fn opt_int_i64(o: Option<i64>) -> Option<int> {
    match o {
        Some(v) => Some(v as int),
        None => None,
    }
}

/// The pattern that matches `p` against a whole record.
pub open spec fn anchored(p: Seq<char>) -> Seq<char> {
    seq!['\\', 'A', '(', '?', ':'] + p + seq![')', '\\', 'z']
}

/// Whether `sel` picks the record `text`.
pub open spec fn selects(sel: &Select, text: Seq<char>) -> bool {
    match sel {
        Select::TextLenRange { min, max } => within(
            text.len() as int,
            opt_int_usize(*min),
            opt_int_usize(*max),
        ),
        Select::TextLenSpec { spec } => text.len() == *spec,
        Select::NumRange { min, max } => match parse_i64_spec(text) {
            Some(v) => within(v as int, opt_int_i64(*min), opt_int_i64(*max)),
            None => false,
        },
        Select::NumSpec { spec } => parse_i64_spec(text) == Some(*spec),
        Select::IsInteger => parse_i64_spec(text) is Some,
        Select::TextAllCase { upper } => forall|k: int|
            0 <= k < text.len() ==> !other_case(#[trigger] text[k], *upper),
        Select::Ascii { ascii } => if *ascii {
            forall|k: int| 0 <= k < text.len() ==> is_ascii_char(#[trigger] text[k])
        } else {
            forall|k: int| 0 <= k < text.len() ==> !is_ascii_char(#[trigger] text[k])
        },
        Select::TextEmptyOrBlank { empty } => if *empty {
            text.len() == 0
        } else {
            forall|k: int| 0 <= k < text.len() ==> is_white(#[trigger] text[k])
        },
        Select::RegMatch { regex } => crate::pattern::regex_finds(regex.pattern(), text),
    }
}

/// Whether `sel` compares the integer a record reads as.
pub open spec fn is_numeric_test(sel: &Select) -> bool {
    sel matches Select::NumRange { .. } || sel matches Select::NumSpec { .. }
}

/// Whether the condition holds of the record `text`. A numeric range or value
/// never holds of a record that reads as no integer, negated or not.
pub open spec fn holds(cond: &Condition, text: Seq<char>) -> bool {
    match cond {
        Condition::Yes(sel) => selects(sel, text),
        Condition::No(sel) => if is_numeric_test(sel) && parse_i64_spec(text) is None {
            false
        } else {
            !selects(sel, text)
        },
    }
}

fn opt_le_usize(lo: Option<usize>, v: usize) -> (r: bool)
    ensures
        r == (match lo {
            Some(l) => l <= v,
            None => true,
        }),
{
    match lo {
        Some(l) => l <= v,
        None => true,
    }
}

fn opt_ge_usize(hi: Option<usize>, v: usize) -> (r: bool)
    ensures
        r == (match hi {
            Some(h) => v <= h,
            None => true,
        }),
{
    match hi {
        Some(h) => v <= h,
        None => true,
    }
}

/// Whether `char::is_lowercase` holds of `c` (the Unicode `Lowercase` property).
pub uninterp spec fn lower_char(c: char) -> bool;

/// Whether `char::is_uppercase` holds of `c` (the Unicode `Uppercase` property).
pub uninterp spec fn upper_char(c: char) -> bool;

/// Relies on `char::is_lowercase`: whether `c` has the Unicode `Lowercase` property.
#[verifier::external_body]
fn char_is_lowercase(c: char) -> (r: bool)
    ensures
        r == lower_char(c),
{
    c.is_lowercase()
}

/// Relies on `char::is_uppercase`: whether `c` has the Unicode `Uppercase` property.
#[verifier::external_body]
fn char_is_uppercase(c: char) -> (r: bool)
    ensures
        r == upper_char(c),
{
    c.is_uppercase()
}

/// Whether `c` is of the case opposite to the one a case class asks for.
pub open spec fn other_case(c: char, upper: bool) -> bool {
    if upper {
        lower_char(c)
    } else {
        upper_char(c)
    }
}

fn lacks_case(t: &Vec<char>, upper: bool) -> (r: bool)
    ensures
        r == forall|k: int| 0 <= k < t@.len() ==> !other_case(#[trigger] t@[k], upper),
{
    let mut i: usize = 0;
    while i < t.len()
        invariant
            0 <= i <= t@.len(),
            forall|k: int| 0 <= k < i ==> !other_case(#[trigger] t@[k], upper),
        decreases t@.len() - i,
    {
        let c = t[i];
        let other = if upper {
            char_is_lowercase(c)
        } else {
            char_is_uppercase(c)
        };
        if other {
            assert(other_case(t@[i as int], upper));
            return false;
        }
        i += 1;
    }
    true
}

fn all_ascii_is(t: &Vec<char>, ascii: bool) -> (r: bool)
    ensures
        ascii ==> r == forall|k: int| 0 <= k < t@.len() ==> is_ascii_char(#[trigger] t@[k]),
        !ascii ==> r == forall|k: int| 0 <= k < t@.len() ==> !is_ascii_char(#[trigger] t@[k]),
{
    let mut i: usize = 0;
    while i < t.len()
        invariant
            0 <= i <= t@.len(),
            ascii ==> forall|k: int| 0 <= k < i ==> is_ascii_char(#[trigger] t@[k]),
            !ascii ==> forall|k: int| 0 <= k < i ==> !is_ascii_char(#[trigger] t@[k]),
        decreases t@.len() - i,
    {
        let c = t[i];
        let a = (c as u32) < 128;
        if ascii != a {
            assert(is_ascii_char(t@[i as int]) == a);
            return false;
        }
        i += 1;
    }
    true
}

fn all_white(t: &Vec<char>) -> (r: bool)
    ensures
        r == forall|k: int| 0 <= k < t@.len() ==> is_white(#[trigger] t@[k]),
{
    let mut i: usize = 0;
    while i < t.len()
        invariant
            0 <= i <= t@.len(),
            forall|k: int| 0 <= k < i ==> is_white(#[trigger] t@[k]),
        decreases t@.len() - i,
    {
        if !is_white_exec(t[i]) {
            assert(!is_white(t@[i as int]));
            return false;
        }
        i += 1;
    }
    true
}

impl Condition {
    pub fn new(select: Select, not: bool) -> (r: Condition)
        ensures
            not ==> r == Condition::No(select),
            !not ==> r == Condition::Yes(select),
    {
        if not {
            Condition::No(select)
        } else {
            Condition::Yes(select)
        }
    }

    pub fn test(&self, input: &str) -> (r: bool)
        ensures
            r == holds(self, input@),
    {
        match self {
            Condition::Yes(select) => select.select(input),
            Condition::No(select) => {
                let numeric = match select {
                    Select::NumRange { .. } | Select::NumSpec { .. } => true,
                    _ => false,
                };
                if numeric && parse_integer(&chars_of(input)).is_none() {
                    false
                } else {
                    !select.select(input)
                }
            },
        }
    }
}

impl Select {
    pub fn new_text_len_range(min: Option<usize>, max: Option<usize>) -> (r: Select)
        ensures
            r == (Select::TextLenRange { min, max }),
    {
        Select::TextLenRange { min, max }
    }

    pub fn new_num_range(min: Option<i64>, max: Option<i64>) -> (r: Select)
        ensures
            r == (Select::NumRange { min, max }),
    {
        Select::NumRange { min, max }
    }

    /// A selection of the records that `regex` matches as a whole.
    pub fn new_reg_match(regex: &str) -> (r: Result<Select, RpErr>)
        ensures
            r is Ok <==> crate::pattern::regex_compiles(anchored(regex@)),
            r matches Ok(s) ==> s matches Select::RegMatch { regex: re } && re.pattern() == anchored(
                regex@,
            ),
            r matches Err(e) ==> e matches RpErr::ParseRegexErr { reg, .. } && reg@ == anchored(
                regex@,
            ),
    {
        let mut reg = String::from_str("\\A(?:");
        reg.append(regex);
        reg.append(")\\z");
        proof {
            reveal_strlit("\\A(?:");
            reveal_strlit(")\\z");
            assert(reg@ =~= anchored(regex@));
        }
        match Re::compile(reg.as_str()) {
            Ok(re) => Ok(Select::RegMatch { regex: re }),
            Err(err) => Err(RpErr::ParseRegexErr { reg, err }),
        }
    }

    pub fn yes(self) -> (r: Condition)
        ensures
            r == Condition::Yes(self),
    {
        Condition::Yes(self)
    }

    pub fn no(self) -> (r: Condition)
        ensures
            r == Condition::No(self),
    {
        Condition::No(self)
    }

    pub fn select(&self, input: &str) -> (r: bool)
        ensures
            r == selects(self, input@),
    {
        match self {
            Select::TextLenRange { min, max } => {
                let t = chars_of(input);
                let len = t.len();
                opt_le_usize(*min, len) && opt_ge_usize(*max, len)
            },
            Select::TextLenSpec { spec } => {
                let t = chars_of(input);
                t.len() == *spec
            },
            Select::NumRange { min, max } => {
                let t = chars_of(input);
                match parse_integer(&t) {
                    Some(v) => (match min {
                        Some(lo) => *lo <= v,
                        None => true,
                    }) && (match max {
                        Some(hi) => v <= *hi,
                        None => true,
                    }),
                    None => false,
                }
            },
            Select::NumSpec { spec } => {
                let t = chars_of(input);
                match parse_integer(&t) {
                    Some(v) => v == *spec,
                    None => false,
                }
            },
            Select::IsInteger => {
                let t = chars_of(input);
                parse_integer(&t).is_some()
            },
            Select::TextAllCase { upper } => {
                let t = chars_of(input);
                lacks_case(&t, *upper)
            },
            Select::Ascii { ascii } => {
                let t = chars_of(input);
                all_ascii_is(&t, *ascii)
            },
            Select::TextEmptyOrBlank { empty } => {
                let t = chars_of(input);
                if *empty {
                    t.len() == 0
                } else {
                    all_white(&t)
                }
            },
            Select::RegMatch { regex } => regex.is_match(input),
        }
    }
}

/// With both bounds given and in order, `len min,max` picks exactly the records
/// whose number of characters lies between them, and its negation picks the others.
pub proof fn lemma_len_range(s: Seq<char>, min: usize, max: usize)
    requires
        min <= max,
    ensures
        holds(&Condition::Yes(Select::TextLenRange { min: Some(min), max: Some(max) }), s) == (min
            <= s.len() <= max),
        holds(&Condition::No(Select::TextLenRange { min: Some(min), max: Some(max) }), s) == !(min
            <= s.len() <= max),
{
}

/// A record that does not read as an integer is never picked by a numeric
/// range or value, nor by their negations.
pub proof fn lemma_num_unparsed(s: Seq<char>, min: Option<i64>, max: Option<i64>, spec: i64)
    requires
        parse_i64_spec(s) is None,
    ensures
        !holds(&Condition::Yes(Select::NumRange { min, max }), s),
        !holds(&Condition::Yes(Select::NumSpec { spec }), s),
        !holds(&Condition::No(Select::NumRange { min, max }), s),
        !holds(&Condition::No(Select::NumSpec { spec }), s),
{
}

impl PartialEq for Select {
    /// Two selections are equal when they are of the same kind with the same
    /// bounds; expressions are compared by their pattern text.
    fn eq(&self, other: &Select) -> (r: bool) {
        match (self, other) {
            (Select::TextLenRange { min: a, max: b }, Select::TextLenRange { min: c, max: d }) => *a == *c && *b
                == *d,
            (Select::TextLenSpec { spec: a }, Select::TextLenSpec { spec: b }) => *a == *b,
            (Select::NumRange { min: a, max: b }, Select::NumRange { min: c, max: d }) => *a == *c && *b == *d,
            (Select::NumSpec { spec: a }, Select::NumSpec { spec: b }) => *a == *b,
            (Select::IsInteger, Select::IsInteger) => true,
            (Select::TextAllCase { upper: a }, Select::TextAllCase { upper: b }) => *a == *b,
            (Select::Ascii { ascii: a }, Select::Ascii { ascii: b }) => *a == *b,
            (Select::TextEmptyOrBlank { empty: a }, Select::TextEmptyOrBlank { empty: b }) => *a == *b,
            (Select::RegMatch { regex: a }, Select::RegMatch { regex: b }) => crate::text::same_text(a.as_str(), b.as_str()),
            _ => false,
        }
    }
}

impl vstd::std_specs::cmp::PartialEqSpecImpl for Select {
    open spec fn obeys_eq_spec() -> bool {
        true
    }

    open spec fn eq_spec(&self, other: &Select) -> bool {
        crate::command::sel_view(self) == crate::command::sel_view(other)
    }
}

} // verus!
