//! Fixed-point quantities.
//!
//! Every physical reading is an integer that counts millionths of its unit,
//! and every total is an integer that stops at the largest value it can hold
//! instead of wrapping. Rendering rounds to the nearest decimal, a tie to the
//! even neighbour.

use crate::text;
use vstd::prelude::*;
use vstd::string::*;

verus! {

/// Nanoseconds in one second.
pub const NANOS: u64 = 1_000_000_000;

/// Nanoseconds in one microsecond.
pub const NANOS_PER_MICRO: u64 = 1_000;

/// A total that stops at the largest `u128`.
pub open spec fn capped(x: int) -> u128 {
    if x > u128::MAX {
        u128::MAX
    } else {
        x as u128
    }
}

/// A rate that stops at the largest `u64`.
pub open spec fn capped_rate(x: int) -> u64 {
    if x > u64::MAX {
        u64::MAX
    } else {
        x as u64
    }
}

/// Capping twice along a sum of non-negative terms is capping once.
pub proof fn capped_sum(a: int, b: int)
    requires
        0 <= a,
        0 <= b,
    ensures
        capped(capped(a) + b) == capped(a + b),
        capped(a + capped(b)) == capped(a + b),
        capped(capped(a) + capped(b)) == capped(a + b),
{
}

/// The sum of two totals, capped.
pub fn sum_capped(a: u128, b: u128) -> (r: u128)
    ensures
        r == capped(a + b),
{
    a.saturating_add(b)
}

/// The product of two quantities, capped.
pub fn times_capped(a: u128, b: u128) -> (r: u128)
    ensures
        r == capped(a * b),
{
    match a.checked_mul(b) {
        Some(p) => p,
        None => u128::MAX,
    }
}

/// A rate in millionths per second from a counter's growth over an interval;
/// `scale` is what one unit of growth over one second counts.
pub open spec fn rate(growth: int, scale: int, interval: int) -> u64 {
    capped_rate(growth * scale / interval)
}

/// The rate of a counter's growth over an interval, capped.
pub fn rate_of(growth: u128, scale: u64, interval: u128) -> (r: u64)
    requires
        interval > 0,
        growth <= 0x2_0000_0000_0000_0000,
        scale <= 0x20_0000_0000_0000,
    ensures
        r == rate(growth as int, scale as int, interval as int),
{
    proof {
        assert(0 <= growth * scale <= 0x2_0000_0000_0000_0000 * 0x20_0000_0000_0000)
            by (nonlinear_arith)
            requires
                0 <= growth <= 0x2_0000_0000_0000_0000,
                0 <= scale <= 0x20_0000_0000_0000,
        ;
    }
    let q: u128 = growth * scale as u128 / interval;
    if q > u64::MAX as u128 {
        u64::MAX
    } else {
        q as u64
    }
}

/// The digit character of `d`.
pub open spec fn digit(d: nat) -> char {
    (48 + d) as u8 as char
}

/// The decimal digits of `n`.
pub open spec fn digits(n: nat) -> Seq<char>
    decreases n,
{
    if n < 10 {
        seq![digit(n)]
    } else {
        digits(n / 10).push(digit(n % 10))
    }
}

/// The decimal digits of `n`, after a minus sign if it is negative.
pub open spec fn signed_digits(n: int) -> Seq<char> {
    if n < 0 {
        seq!['-'] + digits((-n) as nat)
    } else {
        digits(n as nat)
    }
}

/// The `width` lowest decimal digits of `n`, with leading zeros.
pub open spec fn low_digits(n: nat, width: nat) -> Seq<char>
    decreases width,
{
    if width == 0 {
        Seq::empty()
    } else {
        low_digits(n / 10, (width - 1) as nat).push(digit(n % 10))
    }
}

/// `n` without its `width` lowest decimal digits.
pub open spec fn high_part(n: nat, width: nat) -> nat
    decreases width,
{
    if width == 0 {
        n
    } else {
        high_part(n / 10, (width - 1) as nat)
    }
}

/// `value / divisor` to the nearest integer, a tie to the even one.
pub open spec fn rounded(value: nat, divisor: nat) -> nat {
    let q = value / divisor;
    let r = value % divisor;
    if 2 * r > divisor || (2 * r == divisor && q % 2 == 1) {
        q + 1
    } else {
        q
    }
}

/// `value / divisor` as a decimal number whose last `places` digits stand
/// behind the point.
pub open spec fn fixed(value: nat, divisor: nat, places: nat) -> Seq<char> {
    let n = rounded(value, divisor);
    if places == 0 {
        digits(n)
    } else {
        digits(high_part(n, places)) + seq!['.'] + low_digits(n, places)
    }
}

/// `fixed` of a number that may be negative.
pub open spec fn signed_fixed(value: int, divisor: nat, places: nat) -> Seq<char> {
    if value < 0 {
        seq!['-'] + fixed((-value) as nat, divisor, places)
    } else {
        fixed(value as nat, divisor, places)
    }
}

fn digit_char(d: u128) -> (r: char)
    requires
        d < 10,
    ensures
        r == digit(d as nat),
{
    ((d as u8) + 48) as char
}

/// The decimal digits of `n`.
pub fn decimal(n: u128) -> (r: String)
    ensures
        r@ == digits(n as nat),
    decreases n,
{
    let mut r = if n < 10 {
        String::new()
    } else {
        decimal(n / 10)
    };
    r.push(digit_char(n % 10));
    proof {
        if n < 10 {
            assert(r@ =~= digits(n as nat));
        }
    }
    r
}

/// The decimal digits of `n`, after a minus sign if it is negative.
pub fn signed(n: i64) -> (r: String)
    ensures
        r@ == signed_digits(n as int),
{
    if n < 0 {
        let m: u128 = (-(n as i128)) as u128;
        let mut r = text::copy("-");
        r.append(decimal(m).as_str());
        proof {
            reveal_strlit("-");
            assert(r@ =~= seq!['-'] + digits(m as nat));
        }
        r
    } else {
        decimal(n as u128)
    }
}

fn low(n: u128, width: usize) -> (r: String)
    ensures
        r@ == low_digits(n as nat, width as nat),
    decreases width,
{
    if width == 0 {
        String::new()
    } else {
        let mut r = low(n / 10, width - 1);
        r.push(digit_char(n % 10));
        r
    }
}

fn high(n: u128, width: usize) -> (r: u128)
    ensures
        r as nat == high_part(n as nat, width as nat),
    decreases width,
{
    if width == 0 {
        n
    } else {
        high(n / 10, width - 1)
    }
}

/// `value / divisor` as a decimal number with `places` digits behind the
/// point, rounded to the nearest such number.
pub fn render(value: u128, divisor: u128, places: usize) -> (r: String)
    requires
        divisor > 1,
    ensures
        r@ == fixed(value as nat, divisor as nat, places as nat),
{
    let q: u128 = value / divisor;
    let rem: u128 = value % divisor;
    proof {
        assert(q < u128::MAX) by (nonlinear_arith)
            requires
                q == value / divisor,
                divisor > 1,
                value <= u128::MAX,
        ;
    }
    let n: u128 = if rem > divisor - rem || (rem == divisor - rem && q % 2 == 1) {
        q + 1
    } else {
        q
    };
    if places == 0 {
        decimal(n)
    } else {
        let mut r = decimal(high(n, places));
        r.push('.');
        r.append(low(n, places).as_str());
        proof {
            assert(r@ =~= fixed(value as nat, divisor as nat, places as nat));
        }
        r
    }
}

/// `render` of a number that may be negative.
pub fn signed_render(value: i128, divisor: u128, places: usize) -> (r: String)
    requires
        divisor > 1,
    ensures
        r@ == signed_fixed(value as int, divisor as nat, places as nat),
{
    if value < 0 {
        let m: u128 = (-(value + 1)) as u128 + 1;
        let mut r = text::copy("-");
        r.append(render(m, divisor, places).as_str());
        proof {
            reveal_strlit("-");
            assert(r@ =~= seq!['-'] + fixed(m as nat, divisor as nat, places as nat));
        }
        r
    } else {
        render(value as u128, divisor, places)
    }
}

/// A number with one decimal, or a dash for one that is unknown.
pub open spec fn known(n: Option<u128>, divisor: nat) -> Seq<char> {
    match n {
        Some(v) => fixed(v as nat, divisor, 1),
        None => "—"@,
    }
}

/// A count of millionths with one decimal, or a dash for an unknown one.
pub open spec fn known_micro(n: Option<u64>) -> Seq<char> {
    match n {
        Some(v) => fixed(v as nat, 100_000, 1),
        None => "—"@,
    }
}

/// `known_micro` of a count that may be negative.
pub open spec fn known_signed(n: Option<i64>) -> Seq<char> {
    match n {
        Some(v) => signed_fixed(v as int, 100_000, 1),
        None => "—"@,
    }
}

/// A number of units of `10 * divisor`, with one decimal; a dash if unknown.
pub fn number(n: Option<u128>, divisor: u128) -> (r: String)
    requires
        divisor > 1,
    ensures
        r@ == known(n, divisor as nat),
{
    match n {
        Some(v) => render(v, divisor, 1),
        None => text::copy("—"),
    }
}

/// A count of millionths with one decimal; a dash if unknown.
pub fn number_micro(n: Option<u64>) -> (r: String)
    ensures
        r@ == known_micro(n),
{
    match n {
        Some(v) => render(v as u128, 100_000, 1),
        None => text::copy("—"),
    }
}

/// `number_micro` of a count that may be negative.
pub fn number_signed(n: Option<i64>) -> (r: String)
    ensures
        r@ == known_signed(n),
{
    match n {
        Some(v) => signed_render(v as i128, 100_000, 1),
        None => text::copy("—"),
    }
}

/// `n` spaces.
pub open spec fn spaces(n: int) -> Seq<char> {
    Seq::new(
        if n < 0 {
            0
        } else {
            n as nat
        },
        |i: int| ' ',
    )
}

/// The text moved right, to the end of a field of `width` characters.
pub open spec fn right(s: Seq<char>, width: int) -> Seq<char> {
    spaces(width - s.len()) + s
}

/// The text filled up with spaces to a field of `width` characters.
pub open spec fn left(s: Seq<char>, width: int) -> Seq<char> {
    s + spaces(width - s.len())
}

fn blank(n: usize) -> (r: String)
    ensures
        r@ == spaces(n as int),
{
    let mut r = String::new();
    let mut i: usize = 0;
    while i < n
        invariant
            i <= n,
            r@ == spaces(i as int),
        decreases n - i,
    {
        r.push(' ');
        i += 1;
        proof {
            assert(r@ =~= spaces(i as int));
        }
    }
    r
}

/// The text at the end of a field of `width` characters.
pub fn pad_left(s: &str, width: usize) -> (r: String)
    ensures
        r@ == right(s@, width as int),
{
    let n: usize = text::chars(s).len();
    let mut r = blank(width.saturating_sub(n));
    r.append(s);
    proof {
        assert(spaces(width - n) =~= spaces(width.saturating_sub(n) as int));
    }
    r
}

/// The text at the beginning of a field of `width` characters.
pub fn pad_right(s: &str, width: usize) -> (r: String)
    ensures
        r@ == left(s@, width as int),
{
    let n: usize = text::chars(s).len();
    let mut r = text::copy(s);
    r.append(blank(width.saturating_sub(n)).as_str());
    proof {
        assert(spaces(width - n) =~= spaces(width.saturating_sub(n) as int));
    }
    r
}

} // verus!
