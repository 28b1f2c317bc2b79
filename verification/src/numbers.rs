//! Decimal text of 64-bit integers, as std's `FromStr` and `Display` for `i64` define it.
use vstd::prelude::*;

verus! {

/// `c` is one of the ASCII digits `0` to `9`.
pub open spec fn is_digit(c: char) -> bool {
    '0' <= c && c <= '9'
}

/// The number that a run of ASCII digits spells in base ten.
pub open spec fn digits_value(s: Seq<char>) -> int
    decreases s.len(),
{
    if s.len() == 0 {
        0
    } else {
        digits_value(s.drop_last()) * 10 + (s.last() as int - '0' as int)
    }
}

/// The unsigned part of a number's text: `s` without a leading `+` or `-`.
pub open spec fn unsigned_part(s: Seq<char>) -> Seq<char> {
    if s.len() > 0 && (s[0] == '-' || s[0] == '+') {
        s.drop_first()
    } else {
        s
    }
}

/// The `i64` that `s` spells: an optional `+` or `-`, then one or more ASCII digits and
/// nothing else, with a value in the range of `i64`.
pub open spec fn parse_i64_text(s: Seq<char>) -> Option<i64> {
    let body = unsigned_part(s);
    if body.len() > 0 && (forall|i: int| 0 <= i < body.len() ==> is_digit(#[trigger] body[i])) {
        let v = if s[0] == '-' {
            -digits_value(body)
        } else {
            digits_value(body)
        };
        if i64::MIN <= v <= i64::MAX {
            Some(v as i64)
        } else {
            None
        }
    } else {
        None
    }
}

/// The digits of `n` in base ten, most significant first, without leading zeros.
pub open spec fn digits_of(n: nat) -> Seq<char>
    decreases n,
{
    if n < 10 {
        seq![(n + '0' as nat) as char]
    } else {
        digits_of(n / 10).push(((n % 10) + '0' as nat) as char)
    }
}

/// The text of `n` in base ten: a `-` for negative numbers, then its digits.
pub open spec fn decimal_text(n: int) -> Seq<char> {
    if n < 0 {
        seq!['-'] + digits_of((-n) as nat)
    } else {
        digits_of(n as nat)
    }
}

/// Reads an `i64` from text with `str::parse::<i64>`, as its documentation states:
/// an optional sign and decimal digits only, in range; anything else gives `None`.
#[verifier::external_body]
pub(crate) fn parse_i64(s: &str) -> (r: Option<i64>)
    ensures
        r == parse_i64_text(s@),
{
    s.parse::<i64>().ok()
}

/// Writes an `i64` in base ten with `ToString`, as `Display` for integers does: a minus
/// sign for negative values, then the digits without leading zeros.
#[verifier::external_body]
pub(crate) fn i64_text(n: i64) -> (s: String)
    ensures
        s@ == decimal_text(n as int),
{
    n.to_string()
}

proof fn lemma_digits_of(n: nat)
    ensures
        digits_of(n).len() > 0,
        forall|i: int| 0 <= i < digits_of(n).len() ==> is_digit(#[trigger] digits_of(n)[i]),
        digits_value(digits_of(n)) == n,
    decreases n,
{
    if n >= 10 {
        lemma_digits_of(n / 10);
        let d = digits_of(n);
        let p = digits_of(n / 10);
        assert(d.drop_last() == p);
        assert forall|i: int| 0 <= i < d.len() implies is_digit(#[trigger] d[i]) by {
            if i < p.len() {
                assert(d[i] == p[i]);
            }
        }
        assert((n / 10) * 10 + n % 10 == n) by (nonlinear_arith);
        assert(d.last() as int == (n % 10) + '0' as int);
        assert(digits_value(d) == digits_value(p) * 10 + (n % 10));
    } else {
        let d = digits_of(n);
        assert(d[0] as int == n + '0' as int);
        assert(d.drop_last() == Seq::<char>::empty());
        assert(digits_value(d) == digits_value(d.drop_last()) * 10 + (d.last() as int - '0' as int));
    }
}

/// The decimal text of a number is not empty and holds only digits and `-`.
pub proof fn lemma_decimal_text_chars(n: int)
    ensures
        decimal_text(n).len() > 0,
        forall|i: int|
            0 <= i < decimal_text(n).len() ==> is_digit(#[trigger] decimal_text(n)[i])
                || decimal_text(n)[i] == '-',
{
    if n < 0 {
        let d = digits_of((-n) as nat);
        lemma_digits_of((-n) as nat);
        assert forall|i: int| 0 <= i < decimal_text(n).len() implies is_digit(
            #[trigger] decimal_text(n)[i],
        ) || decimal_text(n)[i] == '-' by {
            if i > 0 {
                assert(decimal_text(n)[i] == d[i - 1]);
            }
        }
    } else {
        lemma_digits_of(n as nat);
    }
}

/// Reading back the decimal text of any `i64` gives that `i64`.
pub proof fn lemma_parse_decimal(n: i64)
    ensures
        parse_i64_text(decimal_text(n as int)) == Some(n),
{
    let t = decimal_text(n as int);
    if n < 0 {
        let d = digits_of((-n) as nat);
        lemma_digits_of((-n) as nat);
        assert(t[0] == '-');
        assert(unsigned_part(t) == d);
    } else {
        let d = digits_of(n as nat);
        lemma_digits_of(n as nat);
        assert(is_digit(t[0]));
        assert(unsigned_part(t) == d);
    }
}

} // verus!
