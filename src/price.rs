//! Prices carried as integers in hundredths and written as exact decimals.
use vstd::prelude::*;

use crate::text::{digit_char, fixed_digits, nat_text};

verus! {

/// The price `v / 100` in decimal with exactly two fractional digits: an
/// optional `-`, the whole part without leading zeros, `.`, two digits.
pub open spec fn cents_text(v: int) -> Seq<char> {
    let a: nat = if v < 0 {
        (-v) as nat
    } else {
        v as nat
    };
    let sign: Seq<char> = if v < 0 {
        seq!['-']
    } else {
        seq![]
    };
    sign + nat_text(a / 100) + seq!['.'] + fixed_digits(a % 100, 2)
}

/// Relies on rust_decimal: `Decimal::new(units, 2)` holds `units / 100` at
/// scale 2, and its `Display` writes the mantissa with exactly as many
/// fractional digits as the scale, a `0` before the point when the whole part
/// is zero, and a leading `-` for a negative value.
#[verifier::external_body]
fn decimal_text_scale2(units: i64) -> (r: String)
    ensures
        r@ == cents_text(units as int),
{
    rust_decimal::Decimal::new(units, 2).to_string()
}

/// The price held in hundredths `units`, written as an exact decimal with two
/// fractional digits (`123450` gives `1234.50`).
pub fn price_text(units: i64) -> (r: String)
    ensures
        r@ == cents_text(units as int),
{
    decimal_text_scale2(units)
}

/// The value of a decimal digit character (zero for any other character).
pub open spec fn digit_value(c: char) -> int {
    if c == '1' {
        1
    } else if c == '2' {
        2
    } else if c == '3' {
        3
    } else if c == '4' {
        4
    } else if c == '5' {
        5
    } else if c == '6' {
        6
    } else if c == '7' {
        7
    } else if c == '8' {
        8
    } else if c == '9' {
        9
    } else {
        0
    }
}

/// The number that a string of decimal digits denotes.
pub open spec fn digits_value(s: Seq<char>) -> int
    decreases s.len(),
{
    if s.len() == 0 {
        0
    } else {
        digits_value(s.drop_last()) * 10 + digit_value(s.last())
    }
}

/// Reads a price text `[-]W.FF` back into hundredths.
pub open spec fn cents_value(s: Seq<char>) -> int {
    let neg = s.len() > 0 && s[0] == '-';
    let body = if neg {
        s.drop_first()
    } else {
        s
    };
    let whole = body.subrange(0, body.len() - 3);
    let frac = body.subrange(body.len() - 2, body.len() as int);
    let v = digits_value(whole) * 100 + digits_value(frac);
    if neg {
        -v
    } else {
        v
    }
}

proof fn lemma_digit_round_trip(d: nat)
    requires
        d < 10,
    ensures
        digit_value(digit_char(d)) == d,
        digit_char(d) != '-',
{
}

proof fn lemma_nat_text_value(n: nat)
    ensures
        digits_value(nat_text(n)) == n,
        nat_text(n).len() >= 1,
        nat_text(n)[0] != '-',
    decreases n,
{
    if n < 10 {
        lemma_digit_round_trip(n);
        let s = nat_text(n);
        assert(s.drop_last() =~= Seq::<char>::empty());
        assert(digits_value(s) == digits_value(s.drop_last()) * 10 + digit_value(s.last()));
    } else {
        lemma_nat_text_value(n / 10);
        lemma_digit_round_trip(n % 10);
        let s = nat_text(n);
        assert(s.drop_last() =~= nat_text(n / 10));
        assert(digits_value(s) == digits_value(s.drop_last()) * 10 + digit_value(s.last()));
        assert(n == (n / 10) * 10 + n % 10);
    }
}

proof fn lemma_two_digits_value(n: nat)
    requires
        n < 100,
    ensures
        digits_value(fixed_digits(n, 2)) == n,
        fixed_digits(n, 2).len() == 2,
{
    reveal_with_fuel(fixed_digits, 3);
    let s = fixed_digits(n, 2);
    let t = fixed_digits(n / 10, 1);
    lemma_digit_round_trip(n % 10);
    lemma_digit_round_trip((n / 10) % 10);
    assert(t =~= seq![digit_char((n / 10) % 10)]);
    assert(s.drop_last() =~= t);
    assert(t.drop_last() =~= Seq::<char>::empty());
    assert(digits_value(t) == digits_value(t.drop_last()) * 10 + digit_value(t.last()));
    assert(digits_value(s) == digits_value(s.drop_last()) * 10 + digit_value(s.last()));
    assert((n / 10) % 10 == n / 10);
    assert(n == (n / 10) * 10 + n % 10);
}

/// Every price text reads back exactly as the integer it was written from,
/// and has exactly two digits after its decimal point.
pub proof fn lemma_price_text_round_trip(p: int)
    ensures
        cents_value(cents_text(p)) == p,
        cents_text(p).len() >= 4,
        cents_text(p)[cents_text(p).len() - 3] == '.',
{
    let a: nat = if p < 0 {
        (-p) as nat
    } else {
        p as nat
    };
    let s = cents_text(p);
    let w = nat_text(a / 100);
    let f = fixed_digits(a % 100, 2);
    lemma_nat_text_value(a / 100);
    lemma_two_digits_value(a % 100);
    let body = w + seq!['.'] + f;
    assert(body.subrange(0, body.len() - 3) =~= w);
    assert(body.subrange(body.len() - 2, body.len() as int) =~= f);
    if p < 0 {
        assert(s =~= seq!['-'] + body);
        assert(s.drop_first() =~= body);
    } else {
        assert(s =~= body);
        assert(s[0] == w[0]);
    }
}

} // verus!
