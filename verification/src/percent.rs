//! Percentages as a container runtime prints them.

use crate::text::{self, lower, parts, trimmed, without_trailing};
use vstd::prelude::*;
use vstd::string::*;

verus! {

/// A decimal digit.
pub open spec fn is_digit(c: char) -> bool {
    '0' <= c <= '9'
}

/// The value of a decimal digit.
pub open spec fn value(c: char) -> nat {
    (c as nat - 48) as nat
}

/// Nothing but decimal digits.
pub open spec fn all_digits(s: Seq<char>) -> bool {
    forall|i: int| 0 <= i < s.len() ==> is_digit(#[trigger] s[i])
}

/// The integer whose first `n` decimal digits are those of `d`, which is
/// followed by zeros: the whole part of `0.d` times ten to the `n`.
pub open spec fn leading(d: Seq<char>, n: int) -> nat
    decreases n,
{
    if n <= 0 {
        0
    } else {
        leading(d, n - 1) * 10 + if n <= d.len() {
            value(d[n - 1])
        } else {
            0
        }
    }
}

/// A sign and what follows it.
pub open spec fn unsigned(s: Seq<char>) -> (bool, Seq<char>) {
    if s.len() > 0 && s[0] == '-' {
        (true, s.skip(1))
    } else if s.len() > 0 && s[0] == '+' {
        (false, s.skip(1))
    } else {
        (false, s)
    }
}

/// The digits before and after the decimal point.
pub open spec fn mantissa(m: Seq<char>) -> Option<(Seq<char>, Seq<char>)> {
    let (a, b) = match parts(m, "."@) {
        Some((a, b)) => (a, b),
        None => (m, Seq::empty()),
    };
    if all_digits(a) && all_digits(b) && a.len() + b.len() > 0 {
        Some((a, b))
    } else {
        None
    }
}

/// A whole exponent of ten.
pub open spec fn exponent(x: Seq<char>) -> Option<int> {
    let (neg, d) = unsigned(x);
    if d.len() > 0 && all_digits(d) {
        let n = leading(d, d.len() as int);
        Some(
            if neg {
                -n
            } else {
                n as int
            },
        )
    } else {
        None
    }
}

/// A decimal number: its sign, its digits, and how many of them stand before
/// the point.
pub open spec fn number(s: Seq<char>) -> Option<(bool, Seq<char>, int)> {
    let (neg, t) = unsigned(s);
    let (m, e) = match parts(lower(t), "e"@) {
        Some((m, x)) => (m, exponent(x)),
        None => (lower(t), Some(0)),
    };
    match (mantissa(m), e) {
        (Some((a, b)), Some(e)) => Some((neg, a + b, a.len() + e)),
        _ => None,
    }
}

/// Some digit is not zero.
pub open spec fn nonzero(d: Seq<char>) -> bool {
    exists|i: int| 0 <= i < d.len() && #[trigger] d[i] != '0'
}

/// The millionths of a percentage, if it is a number that is not negative and
/// can be held.
pub open spec fn percent_of(s: Seq<char>) -> Option<u64> {
    match number(without_trailing(trimmed(s), '%')) {
        None => None,
        Some((neg, d, point)) => {
            let v = leading(d, point + 6);
            if (neg && nonzero(d)) || v > u64::MAX {
                None
            } else {
                Some(v as u64)
            }
        },
    }
}

proof fn zero_stays(d: Seq<char>, n: int)
    requires
        !nonzero(d),
    ensures
        leading(d, n) == 0,
    decreases n,
{
    if n > 0 {
        zero_stays(d, n - 1);
        if n <= d.len() {
            assert(d[n - 1] == '0');
        }
    }
}

proof fn never_shrinks(d: Seq<char>, n: int, m: int)
    requires
        n <= m,
    ensures
        leading(d, n) <= leading(d, m),
    decreases m - n,
{
    if n < m {
        never_shrinks(d, n, m - 1);
    }
}

proof fn grows(d: Seq<char>, n: int, k: nat)
    requires
        leading(d, n) >= 1,
    ensures
        leading(d, n + k) >= vstd::arithmetic::power::pow(10, k),
    decreases k,
{
    reveal(vstd::arithmetic::power::pow);
    if n <= 0 {
        assert(false);
    }
    if k > 0 {
        grows(d, n, (k - 1) as nat);
    }
}

proof fn far_overflows(d: Seq<char>, n: int)
    requires
        nonzero(d),
        all_digits(d),
        n >= d.len() + 20,
    ensures
        leading(d, n) > u64::MAX,
{
    let i = choose|i: int| 0 <= i < d.len() && #[trigger] d[i] != '0';
    assert(is_digit(d[i]));
    assert(leading(d, i + 1) >= 1);
    grows(d, i + 1, 20);
    never_shrinks(d, i + 21, n);
    assert(vstd::arithmetic::power::pow(10, 20) == 100_000_000_000_000_000_000) by {
        reveal_with_fuel(vstd::arithmetic::power::pow, 21);
    }
}

/// An exponent beyond this reaches past any digits that a text can hold.
pub const FAR: u128 = 1_000_000_000_000_000_000_000_000_000_000;

/// Whether a text holds digits only.
pub fn digits_only(s: &[char]) -> (r: bool)
    ensures
        r == all_digits(s@),
{
    let mut i: usize = 0;
    while i < s.len()
        invariant
            i <= s@.len(),
            forall|j: int| 0 <= j < i ==> is_digit(#[trigger] s@[j]),
        decreases s.len() - i,
    {
        if !('0' <= s[i] && s[i] <= '9') {
            return false;
        }
        i += 1;
    }
    true
}

fn any_nonzero(s: &[char]) -> (r: bool)
    ensures
        r == nonzero(s@),
{
    let mut i: usize = 0;
    while i < s.len()
        invariant
            i <= s@.len(),
            forall|j: int| 0 <= j < i ==> #[trigger] s@[j] == '0',
        decreases s.len() - i,
    {
        if s[i] != '0' {
            return true;
        }
        i += 1;
    }
    false
}

/// The number that digits write, no greater than `FAR`.
fn near(s: &[char]) -> (r: u128)
    requires
        all_digits(s@),
    ensures
        leading(s@, s@.len() as int) <= FAR ==> r == leading(s@, s@.len() as int),
        leading(s@, s@.len() as int) > FAR ==> r == FAR,
{
    let mut v: u128 = 0;
    let mut i: usize = 0;
    while i < s.len()
        invariant
            i <= s@.len(),
            all_digits(s@),
            v <= FAR,
            v == leading(s@, i as int),
        decreases s.len() - i,
    {
        proof {
            assert(is_digit(s@[i as int]));
            never_shrinks(s@, i + 1, s@.len() as int);
        }
        let next: u128 = v * 10 + (s[i] as u128 - 48);
        if next > FAR {
            return FAR;
        }
        v = next;
        i += 1;
    }
    v
}

fn sign(s: &[char]) -> (r: (bool, Vec<char>))
    ensures
        (r.0, r.1@) == unsigned(s@),
{
    if s.len() > 0 && s[0] == '-' {
        (true, text::piece(s, 1, s.len()))
    } else if s.len() > 0 && s[0] == '+' {
        (false, text::piece(s, 1, s.len()))
    } else {
        let all = text::piece(s, 0, s.len());
        proof {
            assert(all@ =~= s@);
        }
        (false, all)
    }
}

/// The leading `n` digits as a number, if it can be held.
fn held(d: &[char], n: i128) -> (r: Option<u64>)
    requires
        all_digits(d@),
    ensures
        match r {
            Some(v) => v == leading(d@, n as int),
            None => leading(d@, n as int) > u64::MAX,
        },
{
    if !any_nonzero(d) {
        proof {
            zero_stays(d@, n as int);
        }
        return Some(0);
    }
    let mut v: u64 = 0;
    let mut i: i128 = 0;
    while i < n
        invariant
            0 <= i,
            i <= n || (i == 0 && n < 0),
            all_digits(d@),
            v == leading(d@, i as int),
        decreases n - i,
    {
        proof {
            never_shrinks(d@, i + 1, n as int);
            if i < d@.len() {
                assert(is_digit(d@[i as int]));
            }
        }
        let digit: u64 = if i < d.len() as i128 {
            (d[i as usize] as u64) - 48
        } else {
            0
        };
        let next: u128 = v as u128 * 10 + digit as u128;
        if next > u64::MAX as u128 {
            return None;
        }
        v = next as u64;
        i += 1;
    }
    Some(v)
}

/// `e` stands for the exponent `k`: it is the same, or both are out of reach.
spec fn stands_for(e: i128, k: int) -> bool {
    &&& -FAR <= e <= FAR
    &&& e == k || (e == FAR && k > FAR) || (e == -FAR && k < -FAR)
}

fn exponent_near(x: &[char]) -> (r: Option<i128>)
    ensures
        r is Some == exponent(x@) is Some,
        r is Some ==> stands_for(r->0, exponent(x@)->0),
{
    let (negative, d) = sign(x);
    if d.len() == 0 || !digits_only(&d) {
        return None;
    }
    let n: u128 = near(&d);
    if negative {
        Some(-(n as i128))
    } else {
        Some(n as i128)
    }
}

fn mantissa_parts(m: &[char]) -> (r: Option<(Vec<char>, Vec<char>)>)
    ensures
        r is Some == mantissa(m@) is Some,
        r is Some ==> ((r->0).0@, (r->0).1@) == mantissa(m@)->0,
{
    let (a, b) = match text::split_once(m, ".") {
        Some(p) => p,
        None => {
            let all = text::piece(m, 0, m.len());
            let rest: Vec<char> = Vec::new();
            proof {
                assert(all@ =~= m@);
                assert(rest@ =~= Seq::empty());
            }
            (all, rest)
        },
    };
    if !digits_only(&a) || !digits_only(&b) || (a.len() == 0 && b.len() == 0) {
        None
    } else {
        Some((a, b))
    }
}

fn number_near(s: &[char]) -> (r: Option<(bool, Vec<char>, i128)>)
    ensures
        r is Some == number(s@) is Some,
        r is Some ==> ({
            let (negative, d, point) = number(s@)->0;
            &&& (r->0).0 == negative
            &&& (r->0).1@ == d
            &&& all_digits(d)
            &&& place_for((r->0).2, point, d.len() as int)
        }),
{
    let (negative, rest) = sign(s);
    let low = text::to_lower(&rest);
    let (m, e) = match text::split_once(&low, "e") {
        Some((head, x)) => (head, exponent_near(&x)),
        None => (low, Some(0)),
    };
    let e: i128 = match e {
        Some(e) => e,
        None => {
            return None;
        },
    };
    match mantissa_parts(&m) {
        None => None,
        Some((a, b)) => {
            let before: usize = a.len();
            let after: usize = b.len();
            let n: i128 = before as i128 + e;
            let mut d = a;
            let mut tail = b;
            let ghost (first, second) = (d@, tail@);
            d.append(&mut tail);
            proof {
                assert(d@ =~= first + second);
                assert(d@.len() == before + after);
                assert forall|i: int| 0 <= i < d@.len() implies is_digit(#[trigger] d@[i]) by {
                    if i < before {
                        assert(is_digit(first[i]));
                    } else {
                        assert(is_digit(second[i - before]));
                    }
                }
            }
            Some((negative, d, n))
        },
    }
}

/// `n` stands for the place of the point: it is the same, or both lie far
/// beyond the digits on one side.
spec fn place_for(n: i128, point: int, digits: int) -> bool {
    &&& -2 * FAR <= n <= 2 * FAR
    &&& n == point || (n >= digits + 100 && point >= digits + 100) || (n <= -100 && point <= -100)
}

proof fn places_agree(d: Seq<char>, n: i128, point: int)
    requires
        all_digits(d),
        place_for(n, point, d.len() as int),
    ensures
        leading(d, n + 6) == leading(d, point + 6) || (leading(d, n + 6) > u64::MAX && leading(
            d,
            point + 6,
        ) > u64::MAX),
{
    if n >= d.len() + 100 && point >= d.len() + 100 {
        if nonzero(d) {
            far_overflows(d, n + 6);
            far_overflows(d, point + 6);
        } else {
            zero_stays(d, n + 6);
            zero_stays(d, point + 6);
        }
    }
}

/// The millionths of a percentage such as `195.6%`; `None` for anything that
/// is not a number, is negative, or is too large to hold.
pub fn percent(s: &str) -> (r: Option<u64>)
    ensures
        r == percent_of(s@),
{
    let body = text::trim_end_matches(&text::trim(&text::chars(s)), '%');
    match number_near(&body) {
        None => None,
        Some((negative, d, n)) => {
            if negative && any_nonzero(&d) {
                return None;
            }
            proof {
                let (_, _, point) = number(body@)->0;
                places_agree(d@, n, point);
            }
            held(&d, n + 6)
        },
    }
}

} // verus!
