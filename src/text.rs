use vstd::prelude::*;
use vstd::string::*;

verus! {

pub open spec fn digit_char(d: nat) -> char {
    if d == 0 {
        '0'
    } else if d == 1 {
        '1'
    } else if d == 2 {
        '2'
    } else if d == 3 {
        '3'
    } else if d == 4 {
        '4'
    } else if d == 5 {
        '5'
    } else if d == 6 {
        '6'
    } else if d == 7 {
        '7'
    } else if d == 8 {
        '8'
    } else {
        '9'
    }
}

/// The decimal digits of `n`, without leading zeros ("0" for zero).
pub open spec fn digits(n: nat) -> Seq<char>
    decreases n,
{
    if n < 10 {
        seq![digit_char(n)]
    } else {
        digits(n / 10) + seq![digit_char(n % 10)]
    }
}

/// The last `p` decimal digits of `n`, with leading zeros.
pub open spec fn padded(n: nat, p: nat) -> Seq<char>
    decreases p,
{
    if p == 0 {
        Seq::empty()
    } else {
        padded(n / 10, (p - 1) as nat) + seq![digit_char(n % 10)]
    }
}

pub open spec fn pow10(p: nat) -> nat
    decreases p,
{
    if p == 0 {
        1
    } else {
        10 * pow10((p - 1) as nat)
    }
}

/// The shortest decimal text of `u / 10^p`, negated where `neg` holds and
/// the value is not zero: no trailing zeros after the point, no point for a
/// whole number.
pub open spec fn decimal_text(neg: bool, u: nat, p: nat) -> Seq<char>
    decreases p,
{
    if p > 0 && u % 10 == 0 {
        decimal_text(neg, u / 10, (p - 1) as nat)
    } else {
        let sign = if neg && u > 0 {
            seq!['-']
        } else {
            Seq::empty()
        };
        let frac = if p == 0 {
            Seq::empty()
        } else {
            seq!['.'] + padded(u % pow10(p), p)
        };
        sign + digits(u / pow10(p)) + frac
    }
}

/// `num / den` rounded half up to six decimal places, as decimal text.
pub open spec fn ratio_text(num: nat, den: nat) -> Seq<char>
    recommends
        den > 0,
{
    decimal_text(false, (num * 1_000_000 + den / 2) / den, 6)
}

fn digit_str(d: u128) -> (r: &'static str)
    requires
        d < 10,
    ensures
        r@ == seq![digit_char(d as nat)],
{
    proof {
        reveal_strlit("0");
        reveal_strlit("1");
        reveal_strlit("2");
        reveal_strlit("3");
        reveal_strlit("4");
        reveal_strlit("5");
        reveal_strlit("6");
        reveal_strlit("7");
        reveal_strlit("8");
        reveal_strlit("9");
    }
    let r = if d == 0 {
        "0"
    } else if d == 1 {
        "1"
    } else if d == 2 {
        "2"
    } else if d == 3 {
        "3"
    } else if d == 4 {
        "4"
    } else if d == 5 {
        "5"
    } else if d == 6 {
        "6"
    } else if d == 7 {
        "7"
    } else if d == 8 {
        "8"
    } else {
        "9"
    };
    proof {
        assert(r@ =~= seq![digit_char(d as nat)]);
    }
    r
}

/// Appends the digits of `n`.
pub fn push_digits(out: &mut String, n: u128)
    ensures
        final(out)@ == old(out)@ + digits(n as nat),
    decreases n,
{
    if n >= 10 {
        push_digits(out, n / 10);
    }
    out.append(digit_str(n % 10));
    proof {
        if n >= 10 {
            assert(old(out)@ + digits((n / 10) as nat) + seq![digit_char((n % 10) as nat)]
                =~= old(out)@ + digits(n as nat));
        } else {
            assert(old(out)@ + seq![digit_char((n % 10) as nat)] =~= old(out)@ + digits(
                n as nat,
            ));
        }
    }
}

fn push_padded(out: &mut String, n: u128, p: u32)
    ensures
        final(out)@ == old(out)@ + padded(n as nat, p as nat),
    decreases p,
{
    if p > 0 {
        push_padded(out, n / 10, p - 1);
        out.append(digit_str(n % 10));
        proof {
            assert(old(out)@ + padded((n / 10) as nat, (p - 1) as nat) + seq![
                digit_char((n % 10) as nat),
            ] =~= old(out)@ + padded(n as nat, p as nat));
        }
    } else {
        proof {
            assert(old(out)@ + padded(n as nat, p as nat) =~= old(out)@);
        }
    }
}

pub(crate) fn pow10_u128(p: u32) -> (r: u128)
    requires
        p <= 30,
    ensures
        r == pow10(p as nat),
    decreases p,
{
    if p == 0 {
        1
    } else {
        let q = pow10_u128(p - 1);
        proof {
            lemma_pow10_bound((p - 1) as nat);
        }
        10 * q
    }
}

pub proof fn lemma_pow10_mono(p: nat, q: nat)
    requires
        p <= q,
    ensures
        pow10(p) <= pow10(q),
    decreases q,
{
    if p < q {
        lemma_pow10_mono(p, (q - 1) as nat);
    }
}

proof fn lemma_pow10_bound(p: nat)
    requires
        p <= 29,
    ensures
        pow10(p) <= 100_000_000_000_000_000_000_000_000_000,
{
    lemma_pow10_mono(p, 29);
    reveal_with_fuel(pow10, 30);
    assert(pow10(29) == 100_000_000_000_000_000_000_000_000_000);
}

pub proof fn lemma_pow10_pos(p: nat)
    ensures
        pow10(p) > 0,
    decreases p,
{
    if p > 0 {
        lemma_pow10_pos((p - 1) as nat);
    }
}

/// Appends `decimal_text(neg, u, p)`.
pub fn push_decimal(out: &mut String, neg: bool, u: u128, p: u32)
    requires
        p <= 30,
    ensures
        final(out)@ == old(out)@ + decimal_text(neg, u as nat, p as nat),
{
    let mut v = u;
    let mut q = p;
    while q > 0 && v % 10 == 0
        invariant
            q <= p <= 30,
            decimal_text(neg, u as nat, p as nat) == decimal_text(neg, v as nat, q as nat),
        decreases q,
    {
        v = v / 10;
        q = q - 1;
    }
    let ghost before = out@;
    if neg && v > 0 {
        proof {
            reveal_strlit("-");
        }
        out.append("-");
    }
    let scale = pow10_u128(q);
    proof {
        lemma_pow10_pos(q as nat);
    }
    let ghost mid = out@;
    push_digits(out, v / scale);
    if q > 0 {
        proof {
            reveal_strlit(".");
        }
        out.append(".");
        push_padded(out, v % scale, q);
    }
    proof {
        let sign = if neg && v > 0 {
            seq!['-']
        } else {
            Seq::empty()
        };
        let frac = if q == 0 {
            Seq::<char>::empty()
        } else {
            seq!['.'] + padded((v % scale) as nat, q as nat)
        };
        assert(mid =~= before + sign);
        assert(out@ =~= before + (sign + digits((v / scale) as nat) + frac));
    }
}

/// Appends `num / den` rounded to six decimal places.
pub fn push_ratio(out: &mut String, num: u128, den: u128)
    requires
        den > 0,
        num <= 100_000_000_000_000_000_000_000_000_000,
    ensures
        final(out)@ == old(out)@ + ratio_text(num as nat, den as nat),
{
    let units = (num * 1_000_000 + den / 2) / den;
    push_decimal(out, false, units, 6);
}

} // verus!
