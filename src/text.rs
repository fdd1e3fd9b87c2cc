//! Decimal rendering of integers as character sequences.
use vstd::prelude::*;
use vstd::string::*;

verus! {

/// The character of the decimal digit `d`, for `d` below 10.
pub open spec fn digit_char(d: nat) -> char {
    if d == 0 {
        '0'
    } else if d == 1 {
        '1'
    } else if d == 2 {
        '2'
    } else if d == 3 {
        '3'
    } else if d == 4 {
        '4'
    } else if d == 5 {
        '5'
    } else if d == 6 {
        '6'
    } else if d == 7 {
        '7'
    } else if d == 8 {
        '8'
    } else {
        '9'
    }
}

/// Whether `c` is one of the ten decimal digits.
pub open spec fn is_digit(c: char) -> bool {
    exists|d: nat| d < 10 && c == digit_char(d)
}

/// The decimal digits of `n` without leading zeros; zero is written `0`.
pub open spec fn nat_text(n: nat) -> Seq<char>
    decreases n,
{
    if n < 10 {
        seq![digit_char(n)]
    } else {
        nat_text(n / 10).push(digit_char(n % 10))
    }
}

/// The last `w` decimal digits of `n`, padded with zeros on the left.
pub open spec fn fixed_digits(n: nat, w: nat) -> Seq<char>
    decreases w,
{
    if w == 0 {
        seq![]
    } else {
        fixed_digits(n / 10, (w - 1) as nat).push(digit_char(n % 10))
    }
}

/// A signed integer in decimal, with a leading `-` when it is negative.
pub open spec fn int_text(v: int) -> Seq<char> {
    if v < 0 {
        seq!['-'] + nat_text((-v) as nat)
    } else {
        nat_text(v as nat)
    }
}

/// `fixed_digits(n, w)` has exactly `w` characters, each a digit.
pub proof fn lemma_fixed_digits_shape(n: nat, w: nat)
    ensures
        fixed_digits(n, w).len() == w,
        forall|i: int| 0 <= i < w ==> is_digit(#[trigger] fixed_digits(n, w)[i]),
    decreases w,
{
    if w > 0 {
        lemma_fixed_digits_shape(n / 10, (w - 1) as nat);
        let s = fixed_digits(n, w);
        assert forall|i: int| 0 <= i < w implies is_digit(#[trigger] s[i]) by {
            if i == w - 1 {
                assert(s[i] == digit_char(n % 10));
            } else {
                assert(s[i] == fixed_digits(n / 10, (w - 1) as nat)[i]);
            }
        }
    }
}

/// `nat_text(n)` has at least one character.
pub proof fn lemma_nat_text_nonempty(n: nat)
    ensures
        nat_text(n).len() >= 1,
    decreases n,
{
    if n >= 10 {
        lemma_nat_text_nonempty(n / 10);
    }
}

fn digit_str(d: u64) -> (r: &'static str)
    requires
        d < 10,
    ensures
        r@ == seq![digit_char(d as nat)],
{
    proof {
        reveal_strlit("0");
        reveal_strlit("1");
        reveal_strlit("2");
        reveal_strlit("3");
        reveal_strlit("4");
        reveal_strlit("5");
        reveal_strlit("6");
        reveal_strlit("7");
        reveal_strlit("8");
        reveal_strlit("9");
    }
    if d == 0 {
        "0"
    } else if d == 1 {
        "1"
    } else if d == 2 {
        "2"
    } else if d == 3 {
        "3"
    } else if d == 4 {
        "4"
    } else if d == 5 {
        "5"
    } else if d == 6 {
        "6"
    } else if d == 7 {
        "7"
    } else if d == 8 {
        "8"
    } else {
        "9"
    }
}

/// Appends the decimal digits of `n` to `s`.
pub(crate) fn push_nat(s: &mut String, n: u64)
    ensures
        final(s)@ == old(s)@ + nat_text(n as nat),
    decreases n,
{
    let ghost s0 = s@;
    if n >= 10 {
        push_nat(s, n / 10);
    }
    s.append(digit_str(n % 10));
    proof {
        if n >= 10 {
            assert(s0 + nat_text((n / 10) as nat) + seq![digit_char((n % 10) as nat)] =~= s0
                + nat_text(n as nat));
        }
    }
}

/// Appends the last `w` decimal digits of `n` to `s`, zero-padded.
pub(crate) fn push_fixed(s: &mut String, n: u64, w: u64)
    ensures
        final(s)@ == old(s)@ + fixed_digits(n as nat, w as nat),
    decreases w,
{
    let ghost s0 = s@;
    if w == 0 {
        assert(s@ =~= s0 + fixed_digits(n as nat, 0));
        return;
    }
    push_fixed(s, n / 10, w - 1);
    s.append(digit_str(n % 10));
    assert(s0 + fixed_digits((n / 10) as nat, (w - 1) as nat) + seq![digit_char((n % 10) as nat)]
        =~= s0 + fixed_digits(n as nat, w as nat));
}

/// Appends a signed integer in decimal to `s`.
pub(crate) fn push_int(s: &mut String, v: i64)
    ensures
        final(s)@ == old(s)@ + int_text(v as int),
{
    let ghost s0 = s@;
    if v < 0 {
        s.append("-");
        let m: u64 = (0i128 - v as i128) as u64;
        push_nat(s, m);
        proof {
            reveal_strlit("-");
            assert(s0 + seq!['-'] + nat_text(m as nat) =~= s0 + int_text(v as int));
        }
    } else {
        push_nat(s, v as u64);
    }
}

} // verus!
