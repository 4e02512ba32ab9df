use vstd::prelude::*;

verus! {

pub open spec fn is_digit(c: char) -> bool {
    '0' <= c && c <= '9'
}

pub open spec fn digit_value(c: char) -> int {
    (c as int) - ('0' as int)
}

/// The value of a run of decimal digits.
pub open spec fn digits_value(s: Seq<char>) -> int
    decreases s.len(),
{
    if s.len() == 0 {
        0
    } else {
        digits_value(s.drop_last()) * 10 + digit_value(s.last())
    }
}

pub open spec fn all_digits(s: Seq<char>) -> bool {
    forall|k: int| 0 <= k < s.len() ==> is_digit(#[trigger] s[k])
}

/// The integer that `s` writes, if any: an optional `+` or `-`, then at least
/// one decimal digit, and nothing else.
pub open spec fn integer_text(s: Seq<char>) -> Option<int> {
    let neg = s.len() > 0 && s[0] == '-';
    let signed = s.len() > 0 && (s[0] == '-' || s[0] == '+');
    let body = if signed { s.drop_first() } else { s };
    if body.len() > 0 && all_digits(body) {
        Some(if neg { -digits_value(body) } else { digits_value(body) })
    } else {
        None
    }
}

pub open spec fn fits_i64(v: int) -> bool {
    i64::MIN <= v <= i64::MAX
}

/// The `i64` that `s` reads as: a written integer within the range of `i64`.
pub open spec fn parse_i64_spec(s: Seq<char>) -> Option<i64> {
    match integer_text(s) {
        Some(v) => if fits_i64(v) {
            Some(v as i64)
        } else {
            None
        },
        None => None,
    }
}

proof fn lemma_digits_nonneg(s: Seq<char>)
    requires
        all_digits(s),
    ensures
        digits_value(s) >= 0,
    decreases s.len(),
{
    if s.len() > 0 {
        assert(all_digits(s.drop_last()));
        lemma_digits_nonneg(s.drop_last());
    }
}

/// Reads `s` as a decimal `i64`, as `str::parse::<i64>` does.
pub fn parse_integer(s: &Vec<char>) -> (r: Option<i64>)
    ensures
        r == parse_i64_spec(s@),
{
    let n = s.len();
    if n == 0 {
        return None;
    }
    let neg = s[0] == '-';
    let signed = s[0] == '-' || s[0] == '+';
    let start: usize = if signed { 1 } else { 0 };
    let ghost body = if signed { s@.drop_first() } else { s@ };
    assert(signed == (s@.len() > 0 && (s@[0] == '-' || s@[0] == '+')));
    assert(neg == (s@.len() > 0 && s@[0] == '-'));
    assert(body =~= s@.subrange(start as int, n as int));
    if start == n {
        return None;
    }
    let limit: i128 = 9223372036854775808;
    let mut acc: i128 = 0;
    let mut i: usize = start;
    let mut too_big = false;
    while i < n
        invariant
            start <= i <= n,
            n == s@.len(),
            body =~= s@.subrange(start as int, n as int),
            n > 0,
            signed == (s@[0] == '-' || s@[0] == '+'),
            neg == (s@[0] == '-'),
            body == (if signed { s@.drop_first() } else { s@ }),
            start == (if signed { 1usize } else { 0usize }),
            all_digits(s@.subrange(start as int, i as int)),
            !too_big ==> acc == digits_value(s@.subrange(start as int, i as int)),
            !too_big ==> 0 <= acc <= limit,
            too_big ==> digits_value(s@.subrange(start as int, i as int)) > limit,
            limit == 9223372036854775808,
        decreases n - i,
    {
        let c = s[i];
        if !('0' <= c && c <= '9') {
            proof {
                assert(body[i - start] == c);
                assert(!is_digit(body[i - start]));
                assert(!all_digits(body));
                assert(integer_text(s@).is_none());
            }
            return None;
        }
        let ghost prev = s@.subrange(start as int, i as int);
        let ghost next = s@.subrange(start as int, i + 1);
        assert(next.drop_last() =~= prev);
        assert(next.last() == c);
        proof {
            assert forall|k: int| 0 <= k < next.len() implies is_digit(#[trigger] next[k]) by {
                if k < prev.len() {
                    assert(next[k] == prev[k]);
                }
            }
            lemma_digits_nonneg(prev);
        }
        if !too_big {
            let d = (c as u32 - '0' as u32) as i128;
            acc = acc * 10 + d;
            if acc > limit {
                too_big = true;
            }
        } else {
            assert(digits_value(next) > limit) by (nonlinear_arith)
                requires
                    digits_value(next) == digits_value(prev) * 10 + digit_value(c),
                    digits_value(prev) > limit,
                    digit_value(c) >= 0,
                    limit > 0,
            ;
        }
        i += 1;
    }
    assert(s@.subrange(start as int, n as int) =~= body);
    if too_big {
        return None;
    }
    if neg {
        Some((-acc) as i64)
    } else if acc == limit {
        None
    } else {
        Some(acc as i64)
    }
}

/// The decimal digits of a natural number, without leading zeros.
pub open spec fn nat_text(n: nat) -> Seq<char>
    decreases n,
{
    if n < 10 {
        seq![digit_char(n)]
    } else {
        nat_text(n / 10) + seq![digit_char(n % 10)]
    }
}

pub open spec fn digit_char(d: nat) -> char {
    (d + ('0' as nat)) as char
}

/// How an integer is written: a `-` before the digits of a negative one.
pub open spec fn int_text(v: int) -> Seq<char> {
    if v < 0 {
        seq!['-'] + nat_text((-v) as nat)
    } else {
        nat_text(v as nat)
    }
}

fn nat_chars(n: u128) -> (r: Vec<char>)
    ensures
        r@ == nat_text(n as nat),
    decreases n,
{
    if n < 10 {
        let c = ((n as u8) + 48) as char;
        let mut v: Vec<char> = Vec::new();
        v.push(c);
        assert(v@ =~= nat_text(n as nat));
        v
    } else {
        let mut v = nat_chars(n / 10);
        let c = (((n % 10) as u8) + 48) as char;
        v.push(c);
        assert(v@ =~= nat_text(n as nat));
        v
    }
}

/// The decimal text of `v`.
pub fn int_to_text(v: i128) -> (r: String)
    ensures
        r@ == int_text(v as int),
{
    if v < 0 {
        let m: u128 = if v == i128::MIN {
            170141183460469231731687303715884105728u128
        } else {
            (-v) as u128
        };
        let mut out: Vec<char> = Vec::new();
        out.push('-');
        let digits = nat_chars(m);
        crate::text::extend_chars(&mut out, &digits);
        assert(out@ =~= int_text(v as int));
        crate::text::string_of(&out)
    } else {
        let digits = nat_chars(v as u128);
        crate::text::string_of(&digits)
    }
}

} // verus!
