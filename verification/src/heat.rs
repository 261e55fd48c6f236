//! What temperatures, process names and key codes mean, in terms of what was
//! read.

use crate::evidence::pieces_of_a_join;
use crate::measured::a_piece_without_slashes;
use crate::num::signed_digits;
use crate::samplers::procname::{
    basename_of, is_version, last_meaningful, last_unversioned, name_by_path, parts_of,
    says_nothing,
};
use crate::samplers::thermal::{
    bank_keys, bank_of, bits_of, bytes_of, code_of, float_keys, float_of, millionths, power,
    power_grows, present, pressure_of, the_greatest_reading_bounds_the_mean, thermal_of, total,
    Bank, KeyInfo, KeyReading, SmcReadings,
};
use crate::text::pieces;
use crate::types::ThermalPressure;
use vstd::prelude::*;

verus! {

/// A finite single-precision number is its significand times a power of two:
/// in millionths, rounded down. One that is not finite is unknown.
pub proof fn floats_are_read_by_their_bits(bits: u32)
    ensures
        power(0) == 1,
        ({
            let field = bits as int / 8388608 % 256;
            let x = if field == 0 { 1 } else { field };
            let m = bits as int % 8388608 + (if field == 0 { 0int } else { 8388608int });
            let v = if bits >= 2147483648 { -m * 1_000_000 } else { m * 1_000_000 };
            let r = millionths(bits);
            &&& r is None <==> field == 255
            &&& r is Some && x < 150 ==> {
                let unit = power((150 - x) as nat) as int;
                unit > 0 && r->0 * unit <= v < (r->0 + 1) * unit
            }
            &&& r is Some && x >= 150 ==> {
                let unit = power((x - 150) as nat) as int;
                (i64::MIN <= v * unit <= i64::MAX ==> r->0 == v * unit) && (v * unit > i64::MAX
                    ==> r->0 == i64::MAX) && (v * unit < i64::MIN ==> r->0 == i64::MIN)
            }
        }),
{
    let field = bits as int / 8388608 % 256;
    let x = if field == 0 { 1 } else { field };
    let m = bits as int % 8388608 + (if field == 0 { 0int } else { 8388608int });
    let v = if bits >= 2147483648 { -m * 1_000_000 } else { m * 1_000_000 };
    assert(-16777216 * 1_000_000 <= v <= 16777216 * 1_000_000);
    if field != 255 && x < 150 {
        let unit = power((150 - x) as nat) as int;
        power_grows(0, (150 - x) as nat);
        let q = v / unit;
        assert(q * unit <= v < (q + 1) * unit) by (nonlinear_arith)
            requires
                unit > 0,
                q == v / unit,
        ;
        assert(-16777216000000 <= q <= 16777216000000) by (nonlinear_arith)
            requires
                unit >= 1,
                q * unit <= v,
                v < (q + 1) * unit,
                -16777216000000 <= v <= 16777216000000,
        ;
    }
}

/// A power of two doubles with its exponent.
pub proof fn powers_of_two_double(k: nat)
    ensures
        power(0) == 1,
        power(k + 1) == 2 * power(k),
{
}

/// A float key is one of the type `flt ` with at least four bytes; its bits are
/// its first four bytes, the lowest first. Any other key has no value.
pub proof fn only_float_keys_have_values(info: KeyInfo, value: Seq<u8>)
    ensures
        ({
            let float = info.data_type == 0x666c7420 && info.data_size >= 4 && value.len() >= 4;
            &&& !float ==> float_of(info, value) is None
            &&& float ==> float_of(info, value) == millionths(bits_of(value))
            &&& value.len() >= 4 ==> bits_of(value) == value[0] + 256 * value[1] + 65536 * value[2]
                + 16777216 * value[3]
        }),
{
}

/// The code of four bytes has the first highest.
pub proof fn codes_are_big_endian(a: u8, b: u8, c: u8, d: u8)
    ensures
        code_of(seq![a, b, c, d]) == 16777216 * a + 65536 * b + 256 * c + d,
        bytes_of((16777216 * a + 65536 * b + 256 * c + d) as u32) == seq![a, b, c, d],
{
    reveal_with_fuel(code_of, 5);
    let s = seq![a, b, c, d];
    assert(s.drop_last() =~= seq![a, b, c]);
    assert(seq![a, b, c].drop_last() =~= seq![a, b]);
    assert(seq![a, b].drop_last() =~= seq![a]);
    assert(seq![a].drop_last() =~= seq![]);
    assert(code_of(seq![a]) == a);
    assert(code_of(seq![a, b]) == 256 * a + b);
    assert(code_of(seq![a, b, c]) == 65536 * a + 256 * b + c);
    let n = (16777216 * a + 65536 * b + 256 * c + d) as u32;
    assert(n as int / 16777216 == a);
    assert(n as int / 65536 == 256 * a + b);
    assert(n as int / 256 == 65536 * a + 256 * b + c);
    assert(bytes_of(n) =~= seq![a, b, c, d]);
}

/// A key is a temperature of the CPU or of the GPU by its first two letters,
/// and counts where it reads from nothing up to 130 degrees.
pub proof fn sensors_are_known_by_their_keys(keys: Seq<KeyReading>, key: String, t: Option<i64>)
    ensures
        ({
            let front = key@.take(2);
            let cpu = key@.len() >= 2 && (front == "Tp"@ || front == "Te"@ || front == "Ts"@);
            let gpu = key@.len() >= 2 && front == "Tg"@;
            let sane = t is Some && 0 <= t->0 <= 130_000_000;
            let more = keys.push((key, t));
            &&& bank_of(key@) == (if cpu {
                Some(Bank::Cpu)
            } else if gpu {
                Some(Bank::Gpu)
            } else {
                None
            })
            &&& cpu && sane ==> bank_keys(more, Bank::Cpu) == bank_keys(keys, Bank::Cpu).push(key@)
            &&& !cpu || !sane ==> bank_keys(more, Bank::Cpu) == bank_keys(keys, Bank::Cpu)
            &&& gpu && sane ==> bank_keys(more, Bank::Gpu) == bank_keys(keys, Bank::Gpu).push(key@)
            &&& !gpu || !sane ==> bank_keys(more, Bank::Gpu) == bank_keys(keys, Bank::Gpu)
            &&& bank_keys(seq![], Bank::Cpu).len() == 0
            &&& bank_keys(seq![], Bank::Gpu).len() == 0
        }),
{
    assert(keys.push((key, t)).drop_last() =~= keys);
    reveal_strlit("Tp");
    reveal_strlit("Te");
    reveal_strlit("Ts");
    reveal_strlit("Tg");
    assert("Tp"@.len() == 2 && "Te"@.len() == 2 && "Ts"@.len() == 2 && "Tg"@.len() == 2);
    assert("Tp"@[1] == 'p' && "Te"@[1] == 'e' && "Ts"@[1] == 's' && "Tg"@[1] == 'g');
    if key@.len() >= 2 {
        assert(key@.subrange(0, 2) =~= key@.take(2));
    }
}

/// Every float key is listed with its value, and no other.
pub proof fn float_keys_are_listed(keys: Seq<KeyReading>, key: String, t: Option<i64>)
    ensures
        float_keys(seq![]).len() == 0,
        t is Some ==> float_keys(keys.push((key, t))) == float_keys(keys).push((key@, t->0)),
        t is None ==> float_keys(keys.push((key, t))) == float_keys(keys),
{
    assert(keys.push((key, t)).drop_last() =~= keys);
}

/// A reading that is there joins the others; one that is not changes nothing.
pub proof fn readings_that_are_there_count(v: Seq<Option<i64>>, t: Option<i64>)
    ensures
        present(seq![]).len() == 0,
        t is Some ==> present(v.push(t)) == present(v).push(t->0),
        t is None ==> present(v.push(t)) == present(v),
{
    assert(v.push(t).drop_last() =~= v);
}

/// The sum of some readings grows by each.
pub proof fn sums_grow_by_each(v: Seq<i64>, t: i64)
    ensures
        total(seq![]) == 0,
        total(v.push(t)) == total(v) + t,
{
    assert(v.push(t).drop_last() =~= v);
}

/// The frame of an instant: the greatest and the mean CPU temperature, the
/// greatest GPU temperature, the number of readings, the system power and the
/// pressure. What was not read is unknown.
pub proof fn thermal_frames_say_what_was_read(s: SmcReadings, state: Option<u64>)
    requires
        present(s.cpu@).len() + present(s.gpu@).len() <= usize::MAX,
    ensures
        ({
            let f = thermal_of(Some(s), state);
            let cpu = present(s.cpu@);
            let gpu = present(s.gpu@);
            &&& f.sensor_count == cpu.len() + gpu.len()
            &&& f.pstr_w == s.system_w
            &&& f.cpu_die_max_c is Some <==> cpu.len() > 0
            &&& f.cpu_die_mean_c is Some <==> cpu.len() > 0
            &&& f.gpu_die_max_c is Some <==> gpu.len() > 0
            &&& cpu.len() > 0 ==> cpu.contains(f.cpu_die_max_c->0) && forall|i: int|
                0 <= i < cpu.len() ==> (#[trigger] cpu[i]) <= f.cpu_die_max_c->0
            &&& gpu.len() > 0 ==> gpu.contains(f.gpu_die_max_c->0) && forall|i: int|
                0 <= i < gpu.len() ==> (#[trigger] gpu[i]) <= f.gpu_die_max_c->0
            &&& cpu.len() > 0 ==> f.cpu_die_mean_c->0 * cpu.len() <= total(cpu) < (
            f.cpu_die_mean_c->0 + 1) * cpu.len()
            &&& f.pressure == pressure_of(state)
        }),
{
    let cpu = present(s.cpu@);
    let gpu = present(s.gpu@);
    if cpu.len() > 0 {
        the_greatest_reading_bounds_the_mean(cpu);
        crate::samplers::thermal::mean_fits(cpu);
        let (t, n) = (total(cpu), cpu.len() as int);
        let q = t / n;
        assert(q * n <= t < (q + 1) * n) by (nonlinear_arith)
            requires
                n > 0,
                q == t / n,
        ;
    }
    if gpu.len() > 0 {
        the_greatest_reading_bounds_the_mean(gpu);
    }
}

/// Without the controller only the pressure is known.
pub proof fn without_the_controller_little_is_known(state: Option<u64>)
    ensures
        ({
            let f = thermal_of(None, state);
            &&& f.cpu_die_max_c is None
            &&& f.cpu_die_mean_c is None
            &&& f.gpu_die_max_c is None
            &&& f.pstr_w is None
            &&& f.sensor_count == 0
            &&& f.pressure == pressure_of(state)
        }),
{
}

/// The levels of the pressure by the states of the service.
pub proof fn pressure_has_four_levels(s: u64)
    ensures
        pressure_of(None) == ThermalPressure::Unknown(18446744073709551615),
        pressure_of(Some(0)) == ThermalPressure::Nominal,
        pressure_of(Some(1)) == ThermalPressure::Fair,
        pressure_of(Some(10)) == ThermalPressure::Fair,
        pressure_of(Some(2)) == ThermalPressure::Serious,
        pressure_of(Some(20)) == ThermalPressure::Serious,
        pressure_of(Some(3)) == ThermalPressure::Critical,
        pressure_of(Some(30)) == ThermalPressure::Critical,
        s > 3 && s != 10 && s != 20 && s != 30 ==> pressure_of(Some(s)) == ThermalPressure::Unknown(
            s,
        ),
{
}

/// A part of a path that is a version number: digits and dots, with a dot.
pub open spec fn only_digits_and_dots(s: Seq<char>) -> bool {
    &&& forall|i: int| 0 <= i < s.len() ==> ('0' <= (#[trigger] s[i]) <= '9') || s[i] == '.'
    &&& exists|i: int| 0 <= i < s.len() && #[trigger] s[i] == '.'
}

/// A part of a path: not empty, without a slash.
pub open spec fn is_part(s: Seq<char>) -> bool {
    s.len() > 0 && forall|i: int| 0 <= i < s.len() ==> s[i] != '/'
}

proof fn parts_of_a_longer_path(dir: Seq<char>, part: Seq<char>)
    requires
        is_part(part),
    ensures
        parts_of(dir + seq!['/'] + part) == parts_of(dir).push(part),
{
    pieces_of_a_join(dir, part);
    a_piece_without_slashes(part);
    let keep = |p: Seq<char>| p.len() > 0;
    assert(pieces(dir, '/') + seq![part] =~= pieces(dir, '/').push(part));
    reveal(Seq::filter);
    assert(pieces(dir, '/').push(part).drop_last() =~= pieces(dir, '/'));
}

/// A program is named by the last part of its path.
pub proof fn programs_are_named_by_their_last_part(dir: Seq<char>, name: Seq<char>)
    requires
        is_part(name),
        !only_digits_and_dots(name),
    ensures
        basename_of(dir + seq!['/'] + name) == Some(name),
{
    parts_of_a_longer_path(dir, name);
    let p = parts_of(dir).push(name);
    assert(p[p.len() - 1] == name);
    assert(!says_nothing(p, p.len() - 1));
}

/// A version number at the end of a path is passed over, and so is a directory
/// of versions before it.
pub proof fn versions_are_passed_over(dir: Seq<char>, name: Seq<char>, version: Seq<char>)
    requires
        is_part(name),
        !only_digits_and_dots(name),
        is_part(version),
        only_digits_and_dots(version),
    ensures
        name != "versions"@ ==> basename_of(dir + seq!['/'] + name + seq!['/'] + version) == Some(
            name,
        ),
        basename_of(dir + seq!['/'] + name + seq!['/'] + "versions"@ + seq!['/'] + version) == Some(
            name,
        ),
{
    let a = dir + seq!['/'] + name;
    parts_of_a_longer_path(dir, name);
    parts_of_a_longer_path(a, version);
    let p = parts_of(dir).push(name).push(version);
    let n = p.len() as int;
    assert(p[n - 1] == version);
    assert(p[n - 2] == name);
    assert(says_nothing(p, n - 1));
    if name != "versions"@ {
        assert(!says_nothing(p, n - 2));
        assert(last_meaningful(p, n) == last_meaningful(p, n - 1));
    }
    reveal_strlit("versions");
    let v = "versions"@;
    assert(v[0] == 'v');
    assert(is_part(v)) by {
        assert(v.len() == 8);
        assert(v[1] == 'e' && v[2] == 'r' && v[3] == 's' && v[4] == 'i' && v[5] == 'o' && v[6]
            == 'n' && v[7] == 's');
    }
    let b = a + seq!['/'] + v;
    parts_of_a_longer_path(a, v);
    parts_of_a_longer_path(b, version);
    let q = parts_of(dir).push(name).push(v).push(version);
    let m = q.len() as int;
    assert(q[m - 1] == version);
    assert(q[m - 2] == v);
    assert(q[m - 3] == name);
    assert(says_nothing(q, m - 1));
    assert(says_nothing(q, m - 2));
    assert(!is_version(v)) by {
        assert(!('0' <= v[0] <= '9') && v[0] != '.');
    }
    assert(!says_nothing(q, m - 3)) by {
        if q[m - 3] == v {
            assert(!is_version(q[m - 2]));
        }
    }
    assert(last_meaningful(q, m) == last_meaningful(q, m - 1));
    assert(last_meaningful(q, m - 1) == last_meaningful(q, m - 2));
}

/// A name is always one of the parts of the path, and without parts there is
/// none.
pub proof fn names_are_parts_of_the_path(path: Seq<char>)
    ensures
        basename_of(path) is Some <==> parts_of(path).len() > 0,
        basename_of(path) is Some ==> parts_of(path).contains(basename_of(path)->0),
{
    let p = parts_of(path);
    found_among(p, p.len() as int);
    if p.len() > 0 {
        assert(p[p.len() - 1] == p.last());
    }
}

proof fn found_among(p: Seq<Seq<char>>, n: int)
    requires
        0 <= n <= p.len(),
    ensures
        last_meaningful(p, n) is Some ==> p.contains(last_meaningful(p, n)->0),
        last_unversioned(p, n) is Some ==> p.contains(last_unversioned(p, n)->0),
        last_meaningful(p, n) is Some ==> !only_digits_and_dots(last_meaningful(p, n)->0),
    decreases n,
{
    if n > 0 {
        found_among(p, n - 1);
        assert(p.contains(p[n - 1]));
    }
}

proof fn a_slash_adds_no_part(path: Seq<char>)
    ensures
        parts_of(path + seq!['/']) == parts_of(path),
        parts_of(seq![]).len() == 0,
{
    let keep = |p: Seq<char>| p.len() > 0;
    let e = Seq::<char>::empty();
    let s = path + seq!['/'];
    assert(s =~= path + seq!['/'] + e);
    pieces_of_a_join(path, e);
    assert(pieces(e, '/') == seq![e]);
    Seq::filter_distributes_over_add(pieces(path, '/'), seq![e], keep);
    reveal(Seq::filter);
    let one = seq![e];
    assert(one.drop_last() =~= seq![]);
    assert(one.drop_last().filter(keep) =~= seq![]);
    assert(one.filter(keep) =~= seq![]);
    assert(parts_of(s) =~= parts_of(path));
}

/// A slash at the end of a path names nothing, and an empty path has no name.
pub proof fn slashes_name_nothing(path: Seq<char>)
    ensures
        basename_of(path + seq!['/']) == basename_of(path),
        basename_of(seq![]) is None,
{
    a_slash_adds_no_part(path);
}

/// Where nothing but a version is there, it is the name, and a directory of
/// versions is the name if nothing stands before it.
pub proof fn a_lone_version_is_a_name(version: Seq<char>)
    requires
        is_part(version),
        only_digits_and_dots(version),
    ensures
        basename_of(seq!['/'] + version) == Some(version),
        basename_of(seq!['/'] + "versions"@ + seq!['/'] + version) == Some("versions"@),
{
    let e = Seq::<char>::empty();
    a_slash_adds_no_part(e);
    parts_of_a_longer_path(e, version);
    assert(e + seq!['/'] + version =~= seq!['/'] + version);
    let p = parts_of(seq!['/'] + version);
    assert(p =~= seq![version]);
    assert(says_nothing(p, 0));
    assert(last_meaningful(p, 0) is None);
    assert(last_unversioned(p, 0) is None);
    reveal_strlit("versions");
    let v = "versions"@;
    assert(v[0] == 'v');
    assert(is_part(v)) by {
        assert(v.len() == 8);
        assert(v[1] == 'e' && v[2] == 'r' && v[3] == 's' && v[4] == 'i' && v[5] == 'o' && v[6]
            == 'n' && v[7] == 's');
    }
    parts_of_a_longer_path(e, v);
    assert(e + seq!['/'] + v =~= seq!['/'] + v);
    parts_of_a_longer_path(seq!['/'] + v, version);
    let q = parts_of(seq!['/'] + v + seq!['/'] + version);
    assert(q =~= seq![v, version]);
    assert(!is_version(v)) by {
        assert(!('0' <= v[0] <= '9') && v[0] != '.');
    }
    assert(says_nothing(q, 1));
    assert(says_nothing(q, 0));
    assert(last_meaningful(q, 0) is None);
    assert(last_meaningful(q, 1) == last_meaningful(q, 0));
    assert(last_meaningful(q, 2) == last_meaningful(q, 1));
    assert(last_unversioned(q, 1) == Some(v));
    assert(last_unversioned(q, 2) == last_unversioned(q, 1));
}

/// A process is named by its path, and one without a name there by its number.
pub proof fn nameless_processes_are_numbers(pid: i32, path: Seq<char>)
    ensures
        name_by_path(pid, None) == "pid "@ + signed_digits(pid as int),
        basename_of(path) is None ==> name_by_path(pid, Some(path)) == "pid "@ + signed_digits(
            pid as int,
        ),
        basename_of(path) is Some ==> name_by_path(pid, Some(path)) == basename_of(path)->0,
{
}

} // verus!
