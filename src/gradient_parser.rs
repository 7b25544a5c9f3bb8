use vstd::prelude::*;
use vstd::string::*;

use crate::{Gradient, IconEngineError};

verus! {

/// Unicode `White_Space` characters, the set that `char::is_whitespace` tests.
pub open spec fn is_ws(c: char) -> bool {
    ('\u{9}' <= c && c <= '\u{d}') || c == ' ' || c == '\u{85}' || c == '\u{a0}'
        || c == '\u{1680}' || ('\u{2000}' <= c && c <= '\u{200a}') || c == '\u{2028}'
        || c == '\u{2029}' || c == '\u{202f}' || c == '\u{205f}' || c == '\u{3000}'
}

pub(crate) fn char_is_ws(c: char) -> (r: bool)
    ensures
        r == is_ws(c),
{
    ('\u{9}' <= c && c <= '\u{d}') || c == ' ' || c == '\u{85}' || c == '\u{a0}'
        || c == '\u{1680}' || ('\u{2000}' <= c && c <= '\u{200a}') || c == '\u{2028}'
        || c == '\u{2029}' || c == '\u{202f}' || c == '\u{205f}' || c == '\u{3000}'
}

pub open spec fn trim_start(s: Seq<char>) -> Seq<char>
    decreases s.len(),
{
    if s.len() > 0 && is_ws(s[0]) {
        trim_start(s.drop_first())
    } else {
        s
    }
}

pub open spec fn trim_end(s: Seq<char>) -> Seq<char>
    decreases s.len(),
{
    if s.len() > 0 && is_ws(s.last()) {
        trim_end(s.drop_last())
    } else {
        s
    }
}

/// `s` without leading and trailing whitespace.
pub open spec fn trim(s: Seq<char>) -> Seq<char> {
    trim_end(trim_start(s))
}

/// The pieces of `s` between commas, in order; one more piece than commas.
pub open spec fn split_commas(s: Seq<char>) -> Seq<Seq<char>>
    decreases s.len(),
{
    if s.len() == 0 {
        seq![Seq::<char>::empty()]
    } else {
        let rest = split_commas(s.drop_first());
        if s[0] == ',' {
            seq![Seq::<char>::empty()] + rest
        } else {
            rest.update(0, seq![s[0]] + rest[0])
        }
    }
}

pub open spec fn is_digit(c: char) -> bool {
    '0' <= c && c <= '9'
}

pub open spec fn all_digits(s: Seq<char>) -> bool {
    forall|i: int| 0 <= i < s.len() ==> is_digit(#[trigger] s[i])
}

/// The number that a string of decimal digits spells.
pub open spec fn digits_value(s: Seq<char>) -> nat
    decreases s.len(),
{
    if s.len() == 0 {
        0
    } else {
        digits_value(s.drop_last()) * 10 + (s.last() as nat - '0' as nat) as nat
    }
}

/// What `u16::from_str` accepts: an optional `+`, then one or more decimal
/// digits whose value fits in 16 bits.
pub open spec fn u16_of(s: Seq<char>) -> Option<u16> {
    let d = if s.len() > 0 && s[0] == '+' {
        s.drop_first()
    } else {
        s
    };
    if d.len() > 0 && all_digits(d) && digits_value(d) <= 0xffff {
        Some(digits_value(d) as u16)
    } else {
        None
    }
}

pub open spec fn gradient_prefix() -> Seq<char> {
    seq!['l', 'i', 'n', 'e', 'a', 'r', '-', 'g', 'r', 'a', 'd', 'i', 'e', 'n', 't', '(']
}

pub open spec fn deg_suffix() -> Seq<char> {
    seq!['d', 'e', 'g']
}

/// The angle part: `<u16>deg`.
pub open spec fn angle_of(a: Seq<char>) -> Option<u16> {
    if a.len() >= 3 && a.subrange(a.len() - 3, a.len() as int) == deg_suffix() {
        u16_of(a.subrange(0, a.len() - 3))
    } else {
        None
    }
}

pub open spec fn is_color(c: Seq<char>) -> bool {
    c.len() > 0 && c[0] == '#'
}

/// The interior of `linear-gradient(...)` once the descriptor is trimmed, if
/// it has that shape.
pub open spec fn gradient_body(s: Seq<char>) -> Option<Seq<char>> {
    let t = trim(s);
    if t.len() >= 17 && t.subrange(0, 16) == gradient_prefix() && t.last() == ')' {
        Some(t.subrange(16, t.len() - 1))
    } else {
        None
    }
}

/// The gradient a descriptor stands for: angle, start colour and stop colour,
/// or `None` where the descriptor is malformed.
pub open spec fn gradient_of(s: Seq<char>) -> Option<(u16, Seq<char>, Seq<char>)> {
    match gradient_body(s) {
        None => None,
        Some(body) => {
            let parts = split_commas(body);
            if parts.len() != 3 {
                None
            } else {
                let a = trim(parts[0]);
                let b = trim(parts[1]);
                let c = trim(parts[2]);
                match angle_of(a) {
                    None => None,
                    Some(v) => if is_color(b) && is_color(c) {
                        Some((v, b, c))
                    } else {
                        None
                    },
                }
            }
        },
    }
}

proof fn lemma_split_len(s: Seq<char>)
    ensures
        split_commas(s).len() >= 1,
    decreases s.len(),
{
    if s.len() > 0 {
        lemma_split_len(s.drop_first());
    }
}

/// Splitting at the first comma, at `k`.
pub(crate) proof fn lemma_split_at_comma(s: Seq<char>, k: int)
    requires
        0 <= k < s.len(),
        s[k] == ',',
        forall|i: int| 0 <= i < k ==> s[i] != ',',
    ensures
        split_commas(s) == seq![s.subrange(0, k)] + split_commas(s.subrange(k + 1, s.len() as int)),
    decreases k,
{
    if k == 0 {
        assert(s.drop_first() =~= s.subrange(1, s.len() as int));
        assert(s.subrange(0, 0) =~= Seq::<char>::empty());
    } else {
        let t = s.drop_first();
        lemma_split_at_comma(t, k - 1);
        assert(t.subrange(k, t.len() as int) =~= s.subrange(k + 1, s.len() as int));
        assert(seq![s[0]] + t.subrange(0, k - 1) =~= s.subrange(0, k));
        assert(split_commas(s) =~= seq![s.subrange(0, k)] + split_commas(
            s.subrange(k + 1, s.len() as int),
        ));
    }
}

/// A string without commas is one piece.
pub(crate) proof fn lemma_split_no_comma(s: Seq<char>)
    requires
        forall|i: int| 0 <= i < s.len() ==> s[i] != ',',
    ensures
        split_commas(s) == seq![s],
    decreases s.len(),
{
    if s.len() == 0 {
        assert(s =~= Seq::<char>::empty());
        assert(split_commas(s) =~= seq![s]);
    } else {
        let t = s.drop_first();
        lemma_split_no_comma(t);
        assert(seq![s[0]] + t =~= s);
        assert(split_commas(s) =~= seq![s]);
    }
}

proof fn lemma_trim_start_step(s: Seq<char>, lo: int, hi: int)
    requires
        0 <= lo < hi <= s.len(),
        is_ws(s[lo]),
    ensures
        trim_start(s.subrange(lo, hi)) == trim_start(s.subrange(lo + 1, hi)),
{
    assert(s.subrange(lo, hi).drop_first() =~= s.subrange(lo + 1, hi));
}

proof fn lemma_trim_end_step(s: Seq<char>, lo: int, hi: int)
    requires
        0 <= lo < hi <= s.len(),
        is_ws(s[hi - 1]),
    ensures
        trim_end(s.subrange(lo, hi)) == trim_end(s.subrange(lo, hi - 1)),
{
    assert(s.subrange(lo, hi).drop_last() =~= s.subrange(lo, hi - 1));
}

/// The bounds of `trim(s@.subrange(lo, hi))` inside `s`.
fn trim_bounds(s: &str, lo: usize, hi: usize) -> (r: (usize, usize))
    requires
        lo <= hi <= s@.len(),
    ensures
        lo <= r.0 <= r.1 <= hi,
        s@.subrange(r.0 as int, r.1 as int) == trim(s@.subrange(lo as int, hi as int)),
{
    let mut a = lo;
    while a < hi && char_is_ws(s.get_char(a))
        invariant
            lo <= a <= hi <= s@.len(),
            trim_start(s@.subrange(lo as int, hi as int)) == trim_start(
                s@.subrange(a as int, hi as int),
            ),
        decreases hi - a,
    {
        proof {
            lemma_trim_start_step(s@, a as int, hi as int);
        }
        a = a + 1;
    }
    proof {
        let u = s@.subrange(a as int, hi as int);
        assert(trim_start(u) == u);
    }
    let mut b = hi;
    while b > a && char_is_ws(s.get_char(b - 1))
        invariant
            lo <= a <= b <= hi <= s@.len(),
            trim_end(s@.subrange(a as int, hi as int)) == trim_end(s@.subrange(a as int, b as int)),
        decreases b - a,
    {
        proof {
            lemma_trim_end_step(s@, a as int, b as int);
        }
        b = b - 1;
    }
    proof {
        let u = s@.subrange(a as int, b as int);
        assert(trim_end(u) == u);
    }
    (a, b)
}

/// The first comma in `s@[lo..hi]`, if any.
fn find_comma(s: &str, lo: usize, hi: usize) -> (r: Option<usize>)
    requires
        lo <= hi <= s@.len(),
    ensures
        match r {
            Some(k) => lo <= k < hi && s@[k as int] == ',' && forall|i: int|
                lo <= i < k ==> s@[i] != ',',
            None => forall|i: int| lo <= i < hi ==> s@[i] != ',',
        },
{
    let mut k = lo;
    while k < hi
        invariant
            lo <= k <= hi <= s@.len(),
            forall|i: int| lo <= i < k ==> s@[i] != ',',
        decreases hi - k,
    {
        if s.get_char(k) == ',' {
            return Some(k);
        }
        k = k + 1;
    }
    None
}

proof fn lemma_digits_value_push(s: Seq<char>, i: int)
    requires
        0 <= i < s.len(),
    ensures
        digits_value(s.subrange(0, i + 1)) == digits_value(s.subrange(0, i)) * 10 + (s[i] as nat
            - '0' as nat) as nat,
{
    assert(s.subrange(0, i + 1).drop_last() =~= s.subrange(0, i));
}

/// A string of digits is worth at least each of its prefixes.
proof fn lemma_digits_value_mono(s: Seq<char>, i: int)
    requires
        0 <= i <= s.len(),
        all_digits(s),
    ensures
        digits_value(s) >= digits_value(s.subrange(0, i)),
    decreases s.len() - i,
{
    if i < s.len() {
        lemma_digits_value_push(s, i);
        assert(is_digit(s[i]));
        lemma_digits_value_mono(s, i + 1);
    } else {
        assert(s.subrange(0, i) =~= s);
    }
}

/// Reads `s@[lo..hi]` as `u16::from_str` does.
fn parse_u16(s: &str, lo: usize, hi: usize) -> (r: Option<u16>)
    requires
        lo <= hi <= s@.len(),
    ensures
        r == u16_of(s@.subrange(lo as int, hi as int)),
{
    let ghost w = s@.subrange(lo as int, hi as int);
    let mut start = lo;
    if lo < hi && s.get_char(lo) == '+' {
        start = lo + 1;
    }
    let ghost d = s@.subrange(start as int, hi as int);
    proof {
        if lo < hi && s@[lo as int] == '+' {
            assert(d =~= w.drop_first());
        } else {
            assert(d =~= w);
        }
    }
    if start == hi {
        proof {
            assert(d.len() == 0);
        }
        return None;
    }
    let mut v: u32 = 0;
    let mut i = start;
    while i < hi
        invariant
            start <= i <= hi <= s@.len(),
            d == s@.subrange(start as int, hi as int),
            w == s@.subrange(lo as int, hi as int),
            d == (if w.len() > 0 && w[0] == '+' {
                w.drop_first()
            } else {
                w
            }),
            forall|j: int| 0 <= j < i - start ==> is_digit(#[trigger] d[j]),
            v as nat == digits_value(d.subrange(0, i - start)),
            v <= 0xffff,
        decreases hi - i,
    {
        let c = s.get_char(i);
        if !('0' <= c && c <= '9') {
            proof {
                assert(!is_digit(d[i - start]));
            }
            return None;
        }
        proof {
            lemma_digits_value_push(d, i - start);
        }
        let nv = v * 10 + (c as u32 - '0' as u32);
        if nv > 0xffff {
            proof {
                if all_digits(d) {
                    lemma_digits_value_mono(d, i - start + 1);
                }
            }
            return None;
        }
        v = nv;
        i = i + 1;
    }
    proof {
        assert(d.subrange(0, hi - start) =~= d);
    }
    Some(v as u16)
}

/// Whether `s@[lo..]` starts with `p@`.
fn starts_with_at(s: &str, lo: usize, p: &str) -> (r: bool)
    requires
        lo + p@.len() <= s@.len(),
    ensures
        r == (s@.subrange(lo as int, lo + p@.len()) == p@),
{
    let _n = s.unicode_len();
    let m = p.unicode_len();
    let mut j: usize = 0;
    while j < m && s.get_char(lo + j) == p.get_char(j)
        invariant
            j <= m == p@.len(),
            lo + m <= s@.len() == _n,
            s@.subrange(lo as int, lo + j) == p@.subrange(0, j as int),
        decreases m - j,
    {
        proof {
            assert(s@.subrange(lo as int, lo + j + 1) =~= p@.subrange(0, j + 1));
        }
        j = j + 1;
    }
    proof {
        if j == m {
            assert(p@.subrange(0, m as int) =~= p@);
        } else {
            assert(s@.subrange(lo as int, lo + m)[j as int] != p@[j as int]);
        }
    }
    j == m
}

fn invalid(msg: &str) -> (r: IconEngineError)
    ensures
        r is InvalidInput,
{
    IconEngineError::InvalidInput(String::from_str(msg))
}

/// Reads `input@[a0..a1]` as an angle, `<u16>deg`.
fn parse_angle(input: &str, a0: usize, a1: usize) -> (r: Option<u16>)
    requires
        a0 <= a1 <= input@.len(),
    ensures
        r == angle_of(input@.subrange(a0 as int, a1 as int)),
{
    let ghost a = input@.subrange(a0 as int, a1 as int);
    let deg = a1 - a0 >= 3 && input.get_char(a1 - 3) == 'd' && input.get_char(a1 - 2) == 'e'
        && input.get_char(a1 - 1) == 'g';
    proof {
        if a.len() >= 3 {
            let tail = a.subrange(a.len() - 3, a.len() as int);
            if deg {
                assert(tail =~= deg_suffix());
            } else {
                assert(tail != deg_suffix()) by {
                    if tail == deg_suffix() {
                        assert(tail[0] == a[a.len() - 3]);
                        assert(tail[1] == a[a.len() - 2]);
                        assert(tail[2] == a[a.len() - 1]);
                    }
                }
            }
        }
    }
    if !deg {
        return None;
    }
    proof {
        assert(a.subrange(0, a.len() - 3) =~= input@.subrange(a0 as int, a1 - 3));
    }
    parse_u16(input, a0, a1 - 3)
}

/// Where `input@[b0..b1]` splits into exactly three comma-separated parts,
/// the positions of its two commas.
fn split_three(input: &str, b0: usize, b1: usize) -> (r: Option<(usize, usize)>)
    requires
        b0 <= b1 <= input@.len(),
    ensures
        ({
            let body = input@.subrange(b0 as int, b1 as int);
            let parts = split_commas(body);
            match r {
                None => parts.len() != 3,
                Some((k1, k2)) => {
                    &&& b0 <= k1 < k2 < b1
                    &&& parts.len() == 3
                    &&& parts[0] == input@.subrange(b0 as int, k1 as int)
                    &&& parts[1] == input@.subrange(k1 + 1, k2 as int)
                    &&& parts[2] == input@.subrange(k2 + 1, b1 as int)
                },
            }
        }),
{
    let ghost body = input@.subrange(b0 as int, b1 as int);
    let k1 = match find_comma(input, b0, b1) {
        Some(k) => k,
        None => {
            proof {
                lemma_split_no_comma(body);
            }
            return None;
        },
    };
    let ghost rest1 = input@.subrange(k1 + 1, b1 as int);
    proof {
        lemma_split_at_comma(body, k1 - b0);
        assert(body.subrange(k1 - b0 + 1, body.len() as int) =~= rest1);
        assert(body.subrange(0, k1 - b0) =~= input@.subrange(b0 as int, k1 as int));
    }
    let k2 = match find_comma(input, k1 + 1, b1) {
        Some(k) => k,
        None => {
            proof {
                lemma_split_no_comma(rest1);
                assert(split_commas(body).len() == 2);
            }
            return None;
        },
    };
    let ghost rest2 = input@.subrange(k2 + 1, b1 as int);
    proof {
        lemma_split_at_comma(rest1, k2 - k1 - 1);
        assert(rest1.subrange(k2 - k1, rest1.len() as int) =~= rest2);
        assert(rest1.subrange(0, k2 - k1 - 1) =~= input@.subrange(k1 + 1, k2 as int));
    }
    match find_comma(input, k2 + 1, b1) {
        Some(k3) => {
            proof {
                lemma_split_at_comma(rest2, k3 - k2 - 1);
                lemma_split_len(rest2.subrange(k3 - k2, rest2.len() as int));
                assert(split_commas(body).len() >= 4);
            }
            return None;
        },
        None => {
            proof {
                lemma_split_no_comma(rest2);
            }
        },
    }
    let ghost parts = split_commas(body);
    proof {
        assert(parts.len() == 3);
        assert(parts[0] == input@.subrange(b0 as int, k1 as int));
        assert(parts[1] == input@.subrange(k1 + 1, k2 as int));
        assert(parts[2] == input@.subrange(k2 + 1, b1 as int));
    }
    Some((k1, k2))
}

/// Where the trimmed descriptor reads `linear-gradient(...)`, the bounds of
/// what stands between the parentheses.
fn body_bounds(input: &str) -> (r: Option<(usize, usize)>)
    ensures
        match gradient_body(input@) {
            Some(body) => r is Some && r->Some_0.0 <= r->Some_0.1 <= input@.len()
                && input@.subrange(r->Some_0.0 as int, r->Some_0.1 as int) == body,
            None => r is None,
        },
{
    let n = input.unicode_len();
    let (lo, hi) = trim_bounds(input, 0, n);
    let ghost t = input@.subrange(lo as int, hi as int);
    proof {
        assert(input@.subrange(0, n as int) =~= input@);
    }
    let prefix = "linear-gradient(";
    proof {
        reveal_strlit("linear-gradient(");
        assert(prefix@ =~= gradient_prefix());
    }
    let shaped = hi - lo >= 17 && starts_with_at(input, lo, prefix) && input.get_char(hi - 1)
        == ')';
    proof {
        if hi - lo >= 17 {
            assert(t.subrange(0, 16) =~= input@.subrange(lo as int, lo + 16));
        }
    }
    if !shaped {
        return None;
    }
    proof {
        assert(input@.subrange(lo + 16, hi - 1) =~= t.subrange(16, t.len() - 1));
    }
    Some((lo + 16, hi - 1))
}

/// Parses a two-stop linear-gradient descriptor such as
/// `linear-gradient(45deg, #ff0000, #0000ff)`.
pub fn parse_gradient(input: &str) -> (r: Result<Gradient, IconEngineError>)
    ensures
        match gradient_of(input@) {
            Some(g) => r is Ok && r->Ok_0.angle == g.0 && r->Ok_0.start_color@ == g.1
                && r->Ok_0.stop_color@ == g.2,
            None => r is Err && r->Err_0 is InvalidInput,
        },
{
    let (b0, b1) = match body_bounds(input) {
        Some(bs) => bs,
        None => {
            return Err(invalid("Gradient string must be in linear-gradient(...) format"));
        },
    };
    let ghost body = input@.subrange(b0 as int, b1 as int);
    let (k1, k2) = match split_three(input, b0, b1) {
        Some(ks) => ks,
        None => {
            return Err(
                invalid("Gradient must have 3 parts: angle, start-color, stop-color"),
            );
        },
    };
    let ghost parts = split_commas(body);
    let (a0, a1) = trim_bounds(input, b0, k1);
    let (c0, c1) = trim_bounds(input, k1 + 1, k2);
    let (d0, d1) = trim_bounds(input, k2 + 1, b1);
    let angle = match parse_angle(input, a0, a1) {
        Some(v) => v,
        None => {
            return Err(invalid("Gradient angle must be a whole number of degrees, like 45deg"));
        },
    };
    let start_ok = c1 > c0 && input.get_char(c0) == '#';
    let stop_ok = d1 > d0 && input.get_char(d0) == '#';
    if !start_ok || !stop_ok {
        return Err(invalid("Colors must be in hex format (e.g., #RRGGBB)"));
    }
    Ok(
        Gradient {
            angle,
            start_color: String::from_str(input.substring_char(c0, c1)),
            stop_color: String::from_str(input.substring_char(d0, d1)),
        },
    )
}

} // verus!
