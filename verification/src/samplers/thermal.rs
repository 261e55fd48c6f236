//! Die temperatures and system power from the keys of the system management
//! controller, and the thermal pressure.
//!
//! Keys are found by listing them all, never by a fixed list: the bank of
//! sensors changes with every chip.

use crate::bytes;
use crate::names::{self, is_ascending};
use crate::sampler::Sampler;
use crate::text::{self, begins, opt_text, texts};
use crate::types::{ThermalFrame, ThermalPressure};
use vstd::prelude::*;
use vstd::string::*;
use vstd::utf8::*;

verus! {

/// The code of a key: its bytes, the first highest, of which four fit.
pub open spec fn code_of(key: Seq<u8>) -> u32
    decreases key.len(),
{
    if key.len() == 0 {
        0
    } else {
        (code_of(key.drop_last()) as int % 0x100_0000 * 0x100 + key.last()) as u32
    }
}

/// The code of a key.
pub fn fourcc(key: &[u8]) -> (r: u32)
    ensures
        r == code_of(key@),
{
    let n: usize = key.len();
    let mut code: u32 = 0;
    let mut i: usize = 0;
    assert(key@.take(0) =~= seq![]);
    while i < n
        invariant
            i <= n,
            n == key@.len(),
            code == code_of(key@.take(i as int)),
        decreases n - i,
    {
        proof {
            assert(key@.take(i + 1).drop_last() =~= key@.take(i as int));
        }
        code = code % 0x100_0000 * 0x100 + key[i] as u32;
        i += 1;
    }
    assert(key@.take(i as int) =~= key@);
    code
}

/// The four bytes of a code, the highest first.
pub open spec fn bytes_of(code: u32) -> Seq<u8> {
    seq![
        (code / 0x100_0000) as u8,
        (code / 0x1_0000 % 0x100) as u8,
        (code / 0x100 % 0x100) as u8,
        (code % 0x100) as u8,
    ]
}

/// The bytes of a code have that code.
pub proof fn codes_keep_their_keys(code: u32)
    ensures
        code_of(bytes_of(code)) == code,
{
    let b = bytes_of(code);
    reveal_with_fuel(code_of, 5);
    assert(b.drop_last() =~= seq![b[0], b[1], b[2]]);
    assert(seq![b[0], b[1], b[2]].drop_last() =~= seq![b[0], b[1]]);
    assert(seq![b[0], b[1]].drop_last() =~= seq![b[0]]);
    assert(seq![b[0]].drop_last() =~= seq![]);
    let (p, q, r, s) = (b[0] as int, b[1] as int, b[2] as int, b[3] as int);
    assert(code == p * 0x100_0000 + q * 0x1_0000 + r * 0x100 + s);
    assert(code_of(seq![b[0]]) == p);
    assert(code_of(seq![b[0], b[1]]) == p * 0x100 + q);
    assert(code_of(seq![b[0], b[1], b[2]]) == p * 0x1_0000 + q * 0x100 + r);
}

/// The text of a code, if it is text.
pub fn key_name(code: u32) -> (r: Option<String>)
    ensures
        opt_text(r) == if valid_utf8(bytes_of(code)) {
            Some(decode_utf8(bytes_of(code)))
        } else {
            None
        },
{
    let mut b: Vec<u8> = Vec::new();
    b.push((code / 0x100_0000) as u8);
    b.push((code / 0x1_0000 % 0x100) as u8);
    b.push((code / 0x100 % 0x100) as u8);
    b.push((code % 0x100) as u8);
    assert(b@ =~= bytes_of(code));
    bytes::utf8(&b)
}

/// The number of keys from the value of the key that counts them.
pub fn key_count(value: &[u8]) -> (r: Option<u32>)
    ensures
        r == if value@.len() >= 4 {
            Some(code_of(value@.take(4)))
        } else {
            None
        },
{
    let n: usize = value.len();
    if n < 4 {
        return None;
    }
    assert(value@.subrange(0, 4) =~= value@.take(4));
    Some(fourcc(vstd::slice::slice_subrange(value, 0, 4)))
}

/// The type of a key whose value is a float.
pub const FLOAT: u32 = 0x666c7420;

/// What a key holds.
#[derive(Debug, Clone, Copy, PartialEq, Eq)]
pub struct KeyInfo {
    pub data_size: u32,
    pub data_type: u32,
    pub data_attributes: u8,
}

/// Two to the power of `k`.
pub open spec fn power(k: nat) -> nat
    decreases k,
{
    if k == 0 {
        1
    } else {
        2 * power((k - 1) as nat)
    }
}

/// The exponent field of a single-precision number.
pub open spec fn exponent(bits: u32) -> int {
    bits as int / 0x80_0000 % 0x100
}

/// The significand of a single-precision number, with its leading bit.
pub open spec fn significand(bits: u32) -> int {
    bits as int % 0x80_0000 + if exponent(bits) > 0 {
        0x80_0000int
    } else {
        0
    }
}

/// The sign bit of a single-precision number.
pub open spec fn negative(bits: u32) -> bool {
    bits >= 0x8000_0000
}

/// The nearest value that fits.
pub open spec fn clamped(x: int) -> i64 {
    if x > i64::MAX {
        i64::MAX
    } else if x < i64::MIN {
        i64::MIN
    } else {
        x as i64
    }
}

/// A finite single-precision number in millionths, rounded down.
pub open spec fn millionths(bits: u32) -> Option<i64> {
    let e = if exponent(bits) > 0 {
        exponent(bits)
    } else {
        1
    };
    let m = if negative(bits) {
        -significand(bits) * 1_000_000
    } else {
        significand(bits) * 1_000_000
    };
    if exponent(bits) == 0xff {
        None
    } else if e >= 150 {
        Some(clamped(m * power((e - 150) as nat)))
    } else {
        Some(clamped(m / power((150 - e) as nat) as int))
    }
}

pub proof fn power_grows(a: nat, b: nat)
    requires
        a <= b,
    ensures
        0 < power(a) <= power(b),
    decreases b,
{
    if a < b {
        power_grows(a, (b - 1) as nat);
    } else if b > 0 {
        power_grows((a - 1) as nat, (b - 1) as nat);
    }
}

proof fn powers_multiply(a: nat, b: nat)
    ensures
        power(a + b) == power(a) * power(b),
    decreases a,
{
    if a > 0 {
        powers_multiply((a - 1) as nat, b);
        let p = power((a - 1) as nat);
        let q = power(b);
        assert((a - 1) as nat + b == (a + b - 1) as nat);
        assert(power(a) == 2 * p);
        assert(power(a + b) == 2 * (p * q));
        assert(2 * (p * q) == (2 * p) * q) by (nonlinear_arith);
    } else {
        let one = power(a);
        let q = power(b);
        assert(one == 1);
        assert(one * q == q) by (nonlinear_arith)
            requires
                one == 1,
        ;
    }
}

proof fn known_powers()
    ensures
        power(20) == 0x10_0000,
        power(21) == 0x20_0000,
        power(60) == 0x1000_0000_0000_0000,
{
    assert(power(10) == 0x400) by {
        reveal_with_fuel(power, 11);
    }
    powers_multiply(10, 10);
    assert(0x10_0000 * 0x10_0000 == 0x100_0000_0000) by (nonlinear_arith);
    assert(0x100_0000_0000 * 0x10_0000 == 0x1000_0000_0000_0000) by (nonlinear_arith);
    powers_multiply(20, 20);
    powers_multiply(40, 20);
    assert(power(21) == 2 * power(20));
}

fn power_of(k: u32) -> (r: u128)
    requires
        k <= 60,
    ensures
        r == power(k as nat),
        0 < r <= 0x1000_0000_0000_0000,
{
    let mut p: u128 = 1;
    let mut i: u32 = 0;
    while i < k
        invariant
            i <= k <= 60,
            p == power(i as nat),
            p <= 0x1000_0000_0000_0000,
        decreases k - i,
    {
        proof {
            power_grows((i + 1) as nat, 60);
            known_powers();
        }
        p = p * 2;
        i += 1;
    }
    proof {
        power_grows(0, k as nat);
        power_grows(k as nat, 60);
        known_powers();
    }
    p
}

fn clamp(x: i128) -> (r: i64)
    ensures
        r == clamped(x as int),
{
    if x > i64::MAX as i128 {
        i64::MAX
    } else if x < i64::MIN as i128 {
        i64::MIN
    } else {
        x as i64
    }
}

fn floor_div(x: i128, d: i128) -> (r: i128)
    requires
        d > 0,
    ensures
        r == x as int / d as int,
{
    if x >= 0 {
        x / d
    } else {
        let y: i128 = -(x + 1);
        let q: i128 = y / d;
        proof {
            let rest = y as int % d as int;
            assert(y as int == (d as int) * (q as int) + rest && 0 <= rest < d) by {
                vstd::arithmetic::div_mod::lemma_fundamental_div_mod(y as int, d as int);
            }
            assert(x as int == (-q - 1) * (d as int) + (d - 1 - rest)) by (nonlinear_arith)
                requires
                    y == -(x + 1),
                    y as int == (d as int) * (q as int) + rest,
            ;
            vstd::arithmetic::div_mod::lemma_fundamental_div_mod_converse(
                x as int,
                d as int,
                -q - 1,
                d - 1 - rest,
            );
            assert(0 <= q <= y) by (nonlinear_arith)
                requires
                    y as int == (d as int) * (q as int) + rest,
                    0 <= rest < d,
                    y >= 0,
            ;
        }
        -q - 1
    }
}

/// A single-precision number in millionths; nothing if it is not finite.
pub fn decode(bits: u32) -> (r: Option<i64>)
    ensures
        r == millionths(bits),
{
    let field: u32 = bits / 0x80_0000 % 0x100;
    if field == 0xff {
        return None;
    }
    let m: i128 = (bits % 0x80_0000) as i128 + if field > 0 {
        0x80_0000
    } else {
        0
    };
    let e: u32 = if field > 0 {
        field
    } else {
        1
    };
    let scaled: i128 = if bits >= 0x8000_0000 {
        -m * 1_000_000
    } else {
        m * 1_000_000
    };
    if e >= 150 {
        let shift: u32 = e - 150;
        if shift <= 20 {
            let p: u128 = power_of(shift);
            proof {
                power_grows(shift as nat, 20);
                known_powers();
                assert(-0x2000_0000_0000_0000_0000 <= scaled * p <= 0x2000_0000_0000_0000_0000)
                    by (nonlinear_arith)
                    requires
                        -0x100_0000 * 1_000_000 <= scaled <= 0x100_0000 * 1_000_000,
                        0 <= p <= 0x10_0000,
                ;
            }
            Some(clamp(scaled * p as i128))
        } else {
            proof {
                power_grows(21, shift as nat);
                known_powers();
                let p = power(shift as nat) as int;
                assert(m >= 0x80_0000);
                assert(m * 1_000_000 * p > 0x8000_0000_0000_0000) by (nonlinear_arith)
                    requires
                        m >= 0x80_0000,
                        p >= 0x20_0000,
                ;
                assert((-m * 1_000_000) * p < -0x8000_0000_0000_0000) by (nonlinear_arith)
                    requires
                        m >= 0x80_0000,
                        p >= 0x20_0000,
                ;
            }
            if scaled < 0 {
                Some(i64::MIN)
            } else {
                Some(i64::MAX)
            }
        }
    } else {
        let shift: u32 = 150 - e;
        if shift <= 60 {
            let p: u128 = power_of(shift);
            Some(clamp(floor_div(scaled, p as i128)))
        } else {
            proof {
                power_grows(60, shift as nat);
                known_powers();
                let p = power(shift as nat) as int;
                assert(scaled >= 0 ==> scaled as int / p == 0) by (nonlinear_arith)
                    requires
                        scaled <= 0x100_0000 * 1_000_000,
                        p >= 0x1000_0000_0000_0000,
                ;
                assert(scaled < 0 ==> scaled as int / p == -1) by (nonlinear_arith)
                    requires
                        scaled >= -0x100_0000 * 1_000_000,
                        p >= 0x1000_0000_0000_0000,
                ;
            }
            if scaled < 0 {
                Some(-1)
            } else {
                Some(0)
            }
        }
    }
}

/// The bits of a value: its first four bytes, the lowest first.
pub open spec fn bits_of(value: Seq<u8>) -> u32 {
    (value[0] + value[1] * 0x100 + value[2] * 0x1_0000 + value[3] * 0x100_0000) as u32
}

/// The value of a float key.
pub open spec fn float_of(info: KeyInfo, value: Seq<u8>) -> Option<i64> {
    if info.data_type != FLOAT || info.data_size < 4 || value.len() < 4 {
        None
    } else {
        millionths(bits_of(value))
    }
}

/// Reads a float key in millionths; nothing if it holds something else.
pub fn read_flt(info: &KeyInfo, value: &[u8]) -> (r: Option<i64>)
    ensures
        r == float_of(*info, value@),
{
    let n: usize = value.len();
    if info.data_type != FLOAT || info.data_size < 4 || n < 4 {
        return None;
    }
    decode(
        value[0] as u32 + value[1] as u32 * 0x100 + value[2] as u32 * 0x1_0000 + value[3] as u32
            * 0x100_0000,
    )
}

/// Whether the controller answered a request.
pub fn answered(status: i32, result: u8) -> (r: bool)
    ensures
        r == (status == 0 && result == 0),
{
    status == 0 && result == 0
}

/// The part of the chip whose temperature a key holds.
#[derive(Debug, Clone, Copy, PartialEq, Eq, Structural)]
pub enum Bank {
    Cpu,
    Gpu,
}

/// The bank of a key by its prefix.
pub open spec fn bank_of(key: Seq<char>) -> Option<Bank> {
    if begins(key, "Tp"@) || begins(key, "Te"@) || begins(key, "Ts"@) {
        Some(Bank::Cpu)
    } else if begins(key, "Tg"@) {
        Some(Bank::Gpu)
    } else {
        None
    }
}

/// The bank of a temperature key.
pub fn temp_bank(key: &str) -> (r: Option<Bank>)
    ensures
        r == bank_of(key@),
{
    let k = text::chars(key);
    if text::starts_with(&k, "Tp") || text::starts_with(&k, "Te") || text::starts_with(&k, "Ts") {
        Some(Bank::Cpu)
    } else if text::starts_with(&k, "Tg") {
        Some(Bank::Gpu)
    } else {
        None
    }
}

/// A key with the value it read, if it is a float key.
pub type KeyReading = (String, Option<i64>);

/// A reading that can be the temperature of a die.
pub open spec fn plausible(t: Option<i64>) -> bool {
    t is Some && 0 <= t->0 <= 130_000_000
}

/// The keys of a bank whose readings are plausible, in their order.
pub open spec fn bank_keys(keys: Seq<KeyReading>, bank: Bank) -> Seq<Seq<char>>
    decreases keys.len(),
{
    if keys.len() == 0 {
        seq![]
    } else {
        let rest = bank_keys(keys.drop_last(), bank);
        let (key, value) = keys.last();
        if bank_of(key@) == Some(bank) && plausible(value) {
            rest.push(key@)
        } else {
            rest
        }
    }
}

fn is_plausible(t: Option<i64>) -> (r: bool)
    ensures
        r == plausible(t),
{
    match t {
        Some(t) => 0 <= t && t <= 130_000_000,
        None => false,
    }
}

/// The CPU and the GPU temperature keys of a list of all keys. Only those that
/// read a sane temperature stay.
pub fn discover_temp_keys(keys: &Vec<KeyReading>) -> (r: (Vec<String>, Vec<String>))
    ensures
        texts(r.0@) == bank_keys(keys@, Bank::Cpu),
        texts(r.1@) == bank_keys(keys@, Bank::Gpu),
{
    let mut cpu: Vec<String> = Vec::new();
    let mut gpu: Vec<String> = Vec::new();
    let mut i: usize = 0;
    proof {
        assert(keys@.take(0) =~= seq![]);
        assert(texts(cpu@) =~= seq![]);
    }
    while i < keys.len()
        invariant
            i <= keys@.len(),
            texts(cpu@) == bank_keys(keys@.take(i as int), Bank::Cpu),
            texts(gpu@) == bank_keys(keys@.take(i as int), Bank::Gpu),
        decreases keys.len() - i,
    {
        proof {
            assert(keys@.take(i + 1).drop_last() =~= keys@.take(i as int));
            assert(keys@.take(i + 1).last() == keys@[i as int]);
        }
        let ghost before = (cpu@, gpu@);
        let key = keys[i].0.as_str();
        if is_plausible(keys[i].1) {
            match temp_bank(key) {
                Some(Bank::Cpu) => {
                    cpu.push(text::copy(key));
                    assert(texts(cpu@) =~= texts(before.0).push(key@));
                },
                Some(Bank::Gpu) => {
                    gpu.push(text::copy(key));
                    assert(texts(gpu@) =~= texts(before.1).push(key@));
                },
                None => {},
            }
        }
        i += 1;
    }
    assert(keys@.take(i as int) =~= keys@);
    (cpu, gpu)
}

/// The readings that are there.
pub open spec fn present(v: Seq<Option<i64>>) -> Seq<i64>
    decreases v.len(),
{
    if v.len() == 0 {
        seq![]
    } else {
        match v.last() {
            Some(t) => present(v.drop_last()).push(t),
            None => present(v.drop_last()),
        }
    }
}

/// The sum of some readings.
pub open spec fn total(v: Seq<i64>) -> int
    decreases v.len(),
{
    if v.len() == 0 {
        0
    } else {
        total(v.drop_last()) + v.last()
    }
}

/// The greatest of some readings.
pub open spec fn greatest(v: Seq<i64>) -> i64
    decreases v.len(),
{
    if v.len() <= 1 {
        v[0]
    } else if greatest(v.drop_last()) >= v.last() {
        greatest(v.drop_last())
    } else {
        v.last()
    }
}

/// The greatest reading and the mean, if there are any.
pub open spec fn summary(v: Seq<i64>) -> Option<(i64, i64)> {
    if v.len() == 0 {
        None
    } else {
        Some((greatest(v), (total(v) / v.len() as int) as i64))
    }
}

proof fn total_is_bounded(v: Seq<i64>)
    ensures
        i64::MIN * v.len() <= total(v) <= i64::MAX * v.len(),
    decreases v.len(),
{
    if v.len() > 0 {
        total_is_bounded(v.drop_last());
        assert(i64::MIN * v.len() == i64::MIN * (v.len() - 1) + i64::MIN) by (nonlinear_arith);
        assert(i64::MAX * v.len() == i64::MAX * (v.len() - 1) + i64::MAX) by (nonlinear_arith);
    }
}

proof fn greatest_bounds(v: Seq<i64>)
    requires
        v.len() > 0,
    ensures
        v.contains(greatest(v)),
        forall|i: int| 0 <= i < v.len() ==> (#[trigger] v[i]) <= greatest(v),
        total(v) <= greatest(v) * v.len(),
    decreases v.len(),
{
    if v.len() == 1 {
        assert(v[0] == greatest(v));
        assert(v.drop_last().len() == 0);
        assert(total(v) == total(v.drop_last()) + v.last());
    } else {
        let less = v.drop_last();
        greatest_bounds(less);
        let k = choose|k: int| 0 <= k < less.len() && less[k] == greatest(less);
        assert(v[k] == greatest(less));
        assert(v[v.len() - 1] == v.last());
        assert forall|i: int| 0 <= i < v.len() implies (#[trigger] v[i]) <= greatest(v) by {
            if i < v.len() - 1 {
                assert(less[i] == v[i]);
            }
        }
        let (g, h, n) = (greatest(v) as int, greatest(less) as int, less.len() as int);
        assert(h * n + v.last() <= g * (n + 1)) by (nonlinear_arith)
            requires
                h <= g,
                v.last() <= g,
                n >= 0,
        ;
    }
}

/// The greatest reading is one of the readings, and neither a reading nor
/// their mean exceeds it.
pub proof fn the_greatest_reading_bounds_the_mean(v: Seq<i64>)
    requires
        v.len() > 0,
    ensures
        v.contains(greatest(v)),
        forall|i: int| 0 <= i < v.len() ==> (#[trigger] v[i]) <= greatest(v),
        total(v) / v.len() as int <= greatest(v),
{
    greatest_bounds(v);
    let (t, g, n) = (total(v), greatest(v) as int, v.len() as int);
    assert(t / n <= g) by (nonlinear_arith)
        requires
            t <= g * n,
            n > 0,
    ;
}

pub proof fn mean_fits(v: Seq<i64>)
    requires
        v.len() > 0,
    ensures
        i64::MIN <= total(v) / v.len() as int <= i64::MAX,
{
    total_is_bounded(v);
    let n = v.len() as int;
    let t = total(v);
    assert(i64::MIN <= t / n <= i64::MAX) by (nonlinear_arith)
        requires
            n > 0,
            i64::MIN * n <= t <= i64::MAX * n,
    ;
}

fn summarize(readings: &Vec<Option<i64>>) -> (r: (Option<(i64, i64)>, usize))
    ensures
        r.0 == summary(present(readings@)),
        r.1 == present(readings@).len(),
{
    let mut sum: i128 = 0;
    let mut max: i64 = 0;
    let mut n: usize = 0;
    let mut i: usize = 0;
    assert(readings@.take(0) =~= seq![]);
    while i < readings.len()
        invariant
            i <= readings@.len(),
            n <= i,
            n == present(readings@.take(i as int)).len(),
            sum == total(present(readings@.take(i as int))),
            i64::MIN * n <= sum <= i64::MAX * n,
            n > 0 ==> max == greatest(present(readings@.take(i as int))),
        decreases readings.len() - i,
    {
        let ghost before = present(readings@.take(i as int));
        proof {
            assert(readings@.take(i + 1).drop_last() =~= readings@.take(i as int));
            assert(readings@.take(i + 1).last() == readings@[i as int]);
        }
        if let Some(t) = readings[i] {
            proof {
                let after = before.push(t);
                assert(after.drop_last() =~= before);
                assert(i64::MIN * (n + 1) == i64::MIN * n + i64::MIN) by (nonlinear_arith);
                assert(i64::MAX * (n + 1) == i64::MAX * n + i64::MAX) by (nonlinear_arith);
                assert(i64::MAX * n <= i64::MAX * 0xffff_ffff_ffff_ffff) by (nonlinear_arith)
                    requires
                        n <= 0xffff_ffff_ffff_ffff,
                ;
                assert(i64::MIN * n >= i64::MIN * 0xffff_ffff_ffff_ffff) by (nonlinear_arith)
                    requires
                        n <= 0xffff_ffff_ffff_ffff,
                ;
                assert(i64::MAX * (n + 1) <= i64::MAX * 0xffff_ffff_ffff_ffff)
                    by (nonlinear_arith)
                    requires
                        n + 1 <= 0xffff_ffff_ffff_ffff,
                ;
                assert(i64::MIN * (n + 1) >= i64::MIN * 0xffff_ffff_ffff_ffff)
                    by (nonlinear_arith)
                    requires
                        n + 1 <= 0xffff_ffff_ffff_ffff,
                ;
            }
            sum = sum + t as i128;
            if n == 0 || t > max {
                max = t;
            }
            n += 1;
        }
        i += 1;
    }
    assert(readings@.take(i as int) =~= readings@);
    if n == 0 {
        return (None, 0);
    }
    let ghost v = present(readings@);
    proof {
        mean_fits(v);
        let k = n as int;
        assert(i64::MAX * k <= i64::MAX * 0xffff_ffff_ffff_ffff) by (nonlinear_arith)
            requires
                k <= 0xffff_ffff_ffff_ffff,
        ;
        assert(i64::MIN * k >= i64::MIN * 0xffff_ffff_ffff_ffff) by (nonlinear_arith)
            requires
                k <= 0xffff_ffff_ffff_ffff,
        ;
    }
    let mean: i128 = floor_div(sum, n as i128);
    (Some((max, mean as i64)), n)
}

/// The level that a state of the notification service stands for. Levels are
/// not contiguous across releases.
pub open spec fn pressure_of(state: Option<u64>) -> ThermalPressure {
    match state {
        None => ThermalPressure::Unknown(u64::MAX),
        Some(s) => if s == 0 {
            ThermalPressure::Nominal
        } else if s == 1 || s == 10 {
            ThermalPressure::Fair
        } else if s == 2 || s == 20 {
            ThermalPressure::Serious
        } else if s == 3 || s == 30 {
            ThermalPressure::Critical
        } else {
            ThermalPressure::Unknown(s)
        },
    }
}

/// The thermal pressure from the service's state, if it could be read.
pub fn read_thermal_pressure(state: Option<u64>) -> (r: ThermalPressure)
    ensures
        r == pressure_of(state),
{
    match state {
        None => ThermalPressure::Unknown(u64::MAX),
        Some(s) => {
            if s == 0 {
                ThermalPressure::Nominal
            } else if s == 1 || s == 10 {
                ThermalPressure::Fair
            } else if s == 2 || s == 20 {
                ThermalPressure::Serious
            } else if s == 3 || s == 30 {
                ThermalPressure::Critical
            } else {
                ThermalPressure::Unknown(s)
            }
        },
    }
}

/// What the controller's keys read at one instant.
#[derive(Debug, PartialEq, Eq)]
pub struct SmcReadings {
    /// One per CPU temperature key.
    pub cpu: Vec<Option<i64>>,
    /// One per GPU temperature key.
    pub gpu: Vec<Option<i64>>,
    /// Whole-system power.
    pub system_w: Option<i64>,
}

/// The number of sensors in two banks.
pub open spec fn sensors(a: nat, b: nat) -> usize {
    if a + b > usize::MAX {
        usize::MAX
    } else {
        (a + b) as usize
    }
}

/// The thermal frame of an instant.
pub open spec fn thermal_of(smc: Option<SmcReadings>, state: Option<u64>) -> ThermalFrame {
    match smc {
        Some(s) => {
            let cpu = present(s.cpu@);
            let gpu = present(s.gpu@);
            ThermalFrame {
                cpu_die_max_c: match summary(cpu) {
                    Some((max, _)) => Some(max),
                    None => None,
                },
                cpu_die_mean_c: match summary(cpu) {
                    Some((_, mean)) => Some(mean),
                    None => None,
                },
                gpu_die_max_c: match summary(gpu) {
                    Some((max, _)) => Some(max),
                    None => None,
                },
                pstr_w: s.system_w,
                sensor_count: sensors(cpu.len(), gpu.len()),
                pressure: pressure_of(state),
            }
        },
        None => ThermalFrame {
            cpu_die_max_c: None,
            cpu_die_mean_c: None,
            gpu_die_max_c: None,
            pstr_w: None,
            sensor_count: 0,
            pressure: pressure_of(state),
        },
    }
}

/// Reads the sensors that were found at the start.
pub struct ThermalSamplerImpl {
    pub cpu_keys: Vec<String>,
    pub gpu_keys: Vec<String>,
}

impl ThermalSamplerImpl {
    /// A sampler for the sensors in a list of all keys, if the controller can
    /// be reached.
    pub fn new(keys: Option<&Vec<KeyReading>>) -> (r: ThermalSamplerImpl)
        ensures
            match keys {
                Some(k) => {
                    &&& texts(r.cpu_keys@) == bank_keys(k@, Bank::Cpu)
                    &&& texts(r.gpu_keys@) == bank_keys(k@, Bank::Gpu)
                },
                None => r.cpu_keys@.len() == 0 && r.gpu_keys@.len() == 0,
            },
    {
        match keys {
            Some(k) => {
                let (cpu_keys, gpu_keys) = discover_temp_keys(k);
                ThermalSamplerImpl { cpu_keys, gpu_keys }
            },
            None => ThermalSamplerImpl { cpu_keys: Vec::new(), gpu_keys: Vec::new() },
        }
    }

    /// The frame of an instant from the readings of the keys, if the
    /// controller can be reached, and the state of the notification service.
    pub fn read(&mut self, smc: &Option<SmcReadings>, state: Option<u64>) -> (r: ThermalFrame)
        ensures
            r == thermal_of(*smc, state),
            *final(self) == *old(self),
    {
        let pressure = read_thermal_pressure(state);
        match smc {
            Some(s) => {
                let (cpu, cpu_count) = summarize(&s.cpu);
                let (gpu, gpu_count) = summarize(&s.gpu);
                ThermalFrame {
                    cpu_die_max_c: match cpu {
                        Some((max, _)) => Some(max),
                        None => None,
                    },
                    cpu_die_mean_c: match cpu {
                        Some((_, mean)) => Some(mean),
                        None => None,
                    },
                    gpu_die_max_c: match gpu {
                        Some((max, _)) => Some(max),
                        None => None,
                    },
                    pstr_w: s.system_w,
                    sensor_count: cpu_count.saturating_add(gpu_count),
                    pressure,
                }
            },
            None => ThermalFrame {
                cpu_die_max_c: None,
                cpu_die_mean_c: None,
                gpu_die_max_c: None,
                pstr_w: None,
                sensor_count: 0,
                pressure,
            },
        }
    }
}

impl Sampler for ThermalSamplerImpl {
    fn name(&self) -> (r: &'static str)
        ensures
            r@ == "AppleSMC + thermalpressure"@,
    {
        "AppleSMC + thermalpressure"
    }
}

/// The float keys of a list of keys with their values, in its order.
pub open spec fn float_keys(keys: Seq<KeyReading>) -> Seq<(Seq<char>, i64)>
    decreases keys.len(),
{
    if keys.len() == 0 {
        seq![]
    } else {
        match keys.last().1 {
            Some(v) => float_keys(keys.drop_last()).push((keys.last().0@, v)),
            None => float_keys(keys.drop_last()),
        }
    }
}

/// The keys of some readings.
pub open spec fn firsts(v: Seq<(Seq<char>, i64)>) -> Seq<Seq<char>> {
    v.map_values(|p: (Seq<char>, i64)| p.0)
}

/// The views of some readings.
pub open spec fn pair_views(v: Seq<(String, i64)>) -> Seq<(Seq<char>, i64)> {
    v.map_values(|p: (String, i64)| (p.0@, p.1))
}

/// The readings at some places.
pub open spec fn picked(v: Seq<(Seq<char>, i64)>, order: Seq<usize>) -> Seq<(Seq<char>, i64)> {
    Seq::new(order.len(), |i: int| v[order[i] as int])
}

/// Every float key with its value, by key; keys that are the same stay in
/// their order.
pub fn dump_float_keys(keys: &Vec<KeyReading>) -> (r: Vec<(String, i64)>)
    ensures
        exists|order: Seq<usize>| #[trigger]
            is_ascending(firsts(float_keys(keys@)), order) && pair_views(r@) == picked(
                float_keys(keys@),
                order,
            ),
{
    let mut found: Vec<String> = Vec::new();
    let mut values: Vec<i64> = Vec::new();
    let mut i: usize = 0;
    proof {
        assert(keys@.take(0) =~= seq![]);
        assert(texts(found@) =~= firsts(float_keys(keys@.take(0))));
    }
    while i < keys.len()
        invariant
            i <= keys@.len(),
            found@.len() == values@.len(),
            texts(found@) == firsts(float_keys(keys@.take(i as int))),
            forall|k: int|
                0 <= k < values@.len() ==> #[trigger] values@[k] == float_keys(
                    keys@.take(i as int),
                )[k].1,
        decreases keys.len() - i,
    {
        let ghost before = float_keys(keys@.take(i as int));
        proof {
            assert(keys@.take(i + 1).drop_last() =~= keys@.take(i as int));
            assert(keys@.take(i + 1).last() == keys@[i as int]);
            assert(texts(found@).len() == found@.len());
            assert(before.len() == firsts(before).len());
        }
        if let Some(v) = keys[i].1 {
            let ghost old_found = found@;
            found.push(text::copy(keys[i].0.as_str()));
            values.push(v);
            proof {
                let after = before.push((keys@[i as int].0@, v));
                assert(texts(found@) =~= texts(old_found).push(keys@[i as int].0@));
                assert(firsts(after) =~= firsts(before).push(keys@[i as int].0@));
            }
        }
        i += 1;
    }
    let ghost all = float_keys(keys@);
    assert(keys@.take(i as int) =~= keys@);
    let order = names::ascending(&found);
    let mut out: Vec<(String, i64)> = Vec::new();
    let mut k: usize = 0;
    proof {
        assert(texts(found@).len() == found@.len());
        assert(all.len() == firsts(all).len());
    }
    while k < order.len()
        invariant
            k <= order@.len(),
            texts(found@) == firsts(all),
            all.len() == found@.len(),
            found@.len() == values@.len(),
            forall|p: int| 0 <= p < order@.len() ==> (#[trigger] order@[p]) < found@.len(),
            forall|k: int| 0 <= k < values@.len() ==> #[trigger] values@[k] == all[k].1,
            out@.len() == k,
            forall|p: int|
                0 <= p < k ==> (#[trigger] out@[p]).0@ == all[order@[p] as int].0 && out@[p].1
                    == all[order@[p] as int].1,
        decreases order.len() - k,
    {
        let at: usize = order[k];
        proof {
            assert(texts(found@)[at as int] == found@[at as int]@);
            assert(firsts(all)[at as int] == all[at as int].0);
        }
        out.push((text::copy(found[at].as_str()), values[at]));
        k += 1;
    }
    assert(pair_views(out@) =~= picked(all, order@));
    out
}

} // verus!
