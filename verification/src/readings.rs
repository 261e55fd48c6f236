//! What the samplers' numbers mean, in terms of the counters that were read.

use crate::bytes::lossy_text;
use crate::notation::a_rate_times_its_interval_is_the_growth;
use crate::samplers::agx::{process_number, unsigned};
use crate::samplers::battery::{frame_of, BatteryProperties};
use crate::samplers::io::{
    throughput, with_disks, with_message, with_messages, Counters, DiskStatistics,
};
use crate::samplers::proc_rusage::{
    best_name, entries, entry_at, exec_path_in, int_at, live_names, names_after, row_of, rows_after,
    state_after, ticks_after, ticks_of, usage_after, word_at, ProcState, Reading, Usage,
};
use crate::samplers::procname::{basename_of, before_zero, name_by_path};
use crate::num::signed_digits;
use crate::text::opt_text;
use vstd::prelude::*;

verus! {

/// `r`, in millionths per second, is the growth from `a` to `b` over `dt`
/// nanoseconds, where one unit counts `scale`: nothing if the counter fell.
pub open spec fn is_rate(r: u64, a: int, b: int, scale: int, dt: u64) -> bool {
    let grown = if b > a { b - a } else { 0 };
    let t = if dt == 0 { 1 } else { dt as int };
    &&& r * t <= grown * scale
    &&& r < u64::MAX ==> grown * scale < (r + 1) * t
}

/// No two readings are of the same process.
pub open spec fn one_each(rs: Seq<Reading>) -> bool {
    forall|i: int, j: int|
        0 <= i < j < rs.len() ==> (#[trigger] rs[i]).entry.pid != (#[trigger] rs[j]).entry.pid
}

proof fn row_at(s: ProcState, rs: Seq<Reading>, dt: u64, j: int)
    requires
        0 <= j < rs.len(),
    ensures
        rows_after(s, rs, dt).len() == rs.len(),
        rows_after(s, rs, dt)[j] == row_of(s, names_after(s, rs.take(j)), rs[j], dt),
    decreases rs.len(),
{
    rows_count(s, rs, dt);
    if j == rs.len() - 1 {
        assert(rs.take(j) =~= rs.drop_last());
        rows_count(s, rs.drop_last(), dt);
    } else {
        row_at(s, rs.drop_last(), dt, j);
        assert(rs.drop_last().take(j) =~= rs.take(j));
    }
}

proof fn rows_count(s: ProcState, rs: Seq<Reading>, dt: u64)
    ensures
        rows_after(s, rs, dt).len() == rs.len(),
    decreases rs.len(),
{
    if rs.len() > 0 {
        rows_count(s, rs.drop_last(), dt);
    }
}

proof fn names_untouched(s: ProcState, rs: Seq<Reading>, pid: i32)
    requires
        forall|k: int| 0 <= k < rs.len() ==> (#[trigger] rs[k]).entry.pid != pid,
    ensures
        names_after(s, rs).dom().contains(pid) == s.names.dom().contains(pid),
        s.names.dom().contains(pid) ==> names_after(s, rs)[pid] == s.names[pid],
    decreases rs.len(),
{
    if rs.len() > 0 {
        let less = rs.drop_last();
        assert forall|k: int| 0 <= k < less.len() implies (#[trigger] less[k]).entry.pid != pid by {
            assert(rs[k].entry.pid != pid);
        }
        names_untouched(s, less, pid);
        assert(rs[rs.len() - 1].entry.pid != pid);
    }
}

proof fn readings_are_kept(uid: u32, rs: Seq<Reading>, i: int)
    requires
        one_each(rs),
        0 <= i < rs.len(),
    ensures
        ({
            let pid = rs[i].entry.pid;
            let own = rs[i].entry.uid == uid;
            &&& usage_after(uid, rs).dom().contains(pid) == (own && rs[i].usage is Some)
            &&& own && rs[i].usage is Some ==> usage_after(uid, rs)[pid] == rs[i].usage->0
            &&& ticks_after(uid, rs).dom().contains(pid) == (own && rs[i].ticks is Some)
            &&& own ==> (rs[i].ticks matches Some((u, k)) ==> ticks_after(uid, rs)[pid] == u + k)
        }),
    decreases rs.len(),
{
    let less = rs.drop_last();
    let pid = rs[i].entry.pid;
    assert(rs[rs.len() - 1] == rs.last());
    if i == rs.len() - 1 {
        assert forall|k: int| 0 <= k < less.len() implies (#[trigger] less[k]).entry.pid != pid by {
            assert(rs[k].entry.pid != rs[i].entry.pid);
        }
        nothing_of(uid, less, pid);
    } else {
        assert(one_each(less)) by {
            assert forall|a: int, b: int| 0 <= a < b < less.len() implies (
            #[trigger] less[a]).entry.pid != (#[trigger] less[b]).entry.pid by {
                assert(rs[a].entry.pid != rs[b].entry.pid);
            }
        }
        readings_are_kept(uid, less, i);
        assert(rs[i].entry.pid != rs[rs.len() - 1].entry.pid);
    }
}

proof fn nothing_of(uid: u32, rs: Seq<Reading>, pid: i32)
    requires
        forall|k: int| 0 <= k < rs.len() ==> (#[trigger] rs[k]).entry.pid != pid,
    ensures
        !usage_after(uid, rs).dom().contains(pid),
        !ticks_after(uid, rs).dom().contains(pid),
    decreases rs.len(),
{
    if rs.len() > 0 {
        let less = rs.drop_last();
        assert forall|k: int| 0 <= k < less.len() implies (#[trigger] less[k]).entry.pid != pid by {
            assert(rs[k].entry.pid != pid);
        }
        nothing_of(uid, less, pid);
        assert(rs[rs.len() - 1].entry.pid != pid);
    }
}

proof fn named_after(s: ProcState, rs: Seq<Reading>, dt: u64, i: int)
    requires
        one_each(rs),
        0 <= i < rs.len(),
    ensures
        names_after(s, rs).dom().contains(rs[i].entry.pid),
        names_after(s, rs)[rs[i].entry.pid] == rows_after(s, rs, dt)[i].name,
    decreases rs.len(),
{
    let less = rs.drop_last();
    row_at(s, rs, dt, i);
    rows_count(s, less, dt);
    if i == rs.len() - 1 {
        assert(rs.take(i) =~= less);
    } else {
        assert(one_each(less)) by {
            assert forall|a: int, b: int| 0 <= a < b < less.len() implies (
            #[trigger] less[a]).entry.pid != (#[trigger] less[b]).entry.pid by {
                assert(rs[a].entry.pid != rs[b].entry.pid);
            }
        }
        named_after(s, less, dt, i);
        assert(rs[i].entry.pid != rs[rs.len() - 1].entry.pid);
    }
}

proof fn live_name(names: Map<i32, Seq<char>>, rs: Seq<Reading>, i: int)
    requires
        0 <= i < rs.len(),
    ensures
        live_names(names, rs).dom().contains(rs[i].entry.pid),
        live_names(names, rs)[rs[i].entry.pid] == names[rs[i].entry.pid],
    decreases rs.len(),
{
    if i < rs.len() - 1 {
        live_name(names, rs.drop_last(), i);
        assert(rs.drop_last()[i] == rs[i]);
    }
}

/// Between two ticks of one process of the same user, each rate is the growth
/// of its own counter over the interval, and of no other: energy in nanojoules,
/// disk traffic in bytes, wakeups of both kinds, and CPU time in clock ticks.
/// The lifetime energy is the counter itself. The process keeps its name.
pub proof fn rates_are_the_growth_of_their_counters(
    s: ProcState,
    first: Seq<Reading>,
    second: Seq<Reading>,
    dt0: u64,
    dt: u64,
    i: int,
    j: int,
    a: Usage,
    b: Usage,
)
    requires
        one_each(first),
        one_each(second),
        0 <= i < first.len(),
        0 <= j < second.len(),
        first[i].entry.pid == second[j].entry.pid,
        first[i].entry.uid == s.uid,
        second[j].entry.uid == s.uid,
        first[i].usage == Some(a),
        second[j].usage == Some(b),
        a.start_abstime == b.start_abstime,
        a.uuid == b.uuid,
        s.timebase_den > 0,
    ensures
        ({
            let row = rows_after(state_after(s, first), second, dt)[j];
            let t = if dt == 0 { 1 } else { dt as int };
            &&& row.pid == second[j].entry.pid
            &&& row.same_uid
            &&& row.energy_mw is Some && is_rate(
                row.energy_mw->0,
                a.energy_nj as int,
                b.energy_nj as int,
                1_000_000_000,
                dt,
            )
            &&& row.disk_read_bps is Some && is_rate(
                row.disk_read_bps->0,
                a.disk_read as int,
                b.disk_read as int,
                1_000_000_000_000_000,
                dt,
            )
            &&& row.disk_write_bps is Some && is_rate(
                row.disk_write_bps->0,
                a.disk_written as int,
                b.disk_written as int,
                1_000_000_000_000_000,
                dt,
            )
            &&& row.wakeups_per_s is Some && is_rate(
                row.wakeups_per_s->0,
                a.idle_wakeups + a.interrupt_wakeups,
                b.idle_wakeups + b.interrupt_wakeups,
                1_000_000_000_000_000,
                dt,
            )
            &&& row.lifetime_energy_j is Some && 1000 * row.lifetime_energy_j->0 <= b.energy_nj
                < 1000 * row.lifetime_energy_j->0 + 1000
            &&& row.start_abstime == Some(b.start_abstime)
            &&& row.footprint_bytes == Some(b.phys_footprint)
            &&& row.name == rows_after(s, first, dt0)[i].name
            &&& match (first[i].ticks, second[j].ticks) {
                (Some((u0, k0)), Some((u1, k1))) => row.cpu_percent is Some && is_cpu_share(
                    row.cpu_percent->0,
                    u0 + k0,
                    u1 + k1,
                    s.timebase_num as int,
                    s.timebase_den as int,
                    t,
                ),
                _ => row.cpu_percent is None,
            }
        }),
{
    let s2 = state_after(s, first);
    let pid = first[i].entry.pid;
    row_at(s2, second, dt, j);
    readings_are_kept(s.uid, first, i);
    let known = names_after(s2, second.take(j));
    assert forall|k: int| 0 <= k < second.take(j).len() implies (
    #[trigger] second.take(j)[k]).entry.pid != pid by {
        assert(second[k].entry.pid != second[j].entry.pid);
    }
    names_untouched(s2, second.take(j), pid);
    named_after(s, first, dt0, i);
    live_name(names_after(s, first), first, i);
    let t = if dt == 0 { 1 } else { dt as int };
    growth_rate(a.energy_nj as int, b.energy_nj as int, 1_000_000_000, t);
    growth_rate(a.disk_read as int, b.disk_read as int, 1_000_000_000_000_000, t);
    growth_rate(a.disk_written as int, b.disk_written as int, 1_000_000_000_000_000, t);
    growth_rate(
        a.idle_wakeups + a.interrupt_wakeups,
        b.idle_wakeups + b.interrupt_wakeups,
        1_000_000_000_000_000,
        t,
    );
    rows_count(s, first, dt0);
    let row = row_of(s2, known, second[j], dt);
    assert(row.name == rows_after(s, first, dt0)[i].name);
    if let (Some((u0, k0)), Some((u1, k1))) = (first[i].ticks, second[j].ticks) {
        cpu_share(u0 + k0, u1 + k1, s.timebase_num as int, s.timebase_den as int, t);
        assert(ticks_of(s.uid, second[j]) == Some((u1 + k1) as u128));
        assert(s2.prev_cpu[pid] == u0 + k0);
    }
}

proof fn cpu_share(a: int, b: int, num: int, den: int, t: int)
    requires
        num >= 0,
        den > 0,
        t > 0,
    ensures
        ({
            let grown = if b > a { b - a } else { 0 };
            is_cpu_share(
                crate::num::capped_rate(grown * num * 100_000_000 / (den * t)),
                a,
                b,
                num,
                den,
                t,
            )
        }),
{
    let grown = if b > a { b - a } else { 0 };
    let d = den * t;
    let p = grown * num * 100_000_000;
    assert(d > 0) by (nonlinear_arith)
        requires
            den > 0,
            t > 0,
            d == den * t,
    ;
    assert(p >= 0) by (nonlinear_arith)
        requires
            grown >= 0,
            num >= 0,
            p == grown * num * 100_000_000,
    ;
    quotient_bounds(p, d);
    let c = crate::num::capped_rate(p / d);
    if p / d > u64::MAX {
        let q = p / d;
        assert(c * d <= q * d) by (nonlinear_arith)
            requires
                c <= q,
                d > 0,
        ;
    }
}

/// `c`, in millionths of a percent of one core, is the growth from `a` to `b`
/// clock ticks of `num / den` nanoseconds over `t` nanoseconds.
pub open spec fn is_cpu_share(c: u64, a: int, b: int, num: int, den: int, t: int) -> bool {
    let grown = if b > a { b - a } else { 0 };
    &&& c * (den * t) <= grown * num * 100_000_000
    &&& c < u64::MAX ==> grown * num * 100_000_000 < (c + 1) * (den * t)
}

proof fn quotient_bounds(p: int, d: int)
    requires
        p >= 0,
        d > 0,
    ensures
        (p / d) * d <= p < (p / d + 1) * d,
        p / d >= 0,
{
    let q = p / d;
    assert(q * d <= p < (q + 1) * d && q >= 0) by (nonlinear_arith)
        requires
            p >= 0,
            d > 0,
            q == p / d,
    ;
}

proof fn growth_rate(a: int, b: int, scale: int, t: int)
    requires
        scale >= 0,
        t > 0,
    ensures
        ({
            let grown = if b > a { b - a } else { 0 };
            let r = crate::num::rate(grown, scale, t);
            r * t <= grown * scale && (r < u64::MAX ==> grown * scale < (r + 1) * t)
        }),
{
    let grown = if b > a { b - a } else { 0 };
    a_rate_times_its_interval_is_the_growth(grown, scale, t);
}

/// A process that was not there at the tick before, or whose number was that of
/// another run, has no rates and gets a name of its own.
pub proof fn new_processes_have_no_rates(
    s: ProcState,
    first: Seq<Reading>,
    second: Seq<Reading>,
    dt: u64,
    j: int,
)
    requires
        one_each(first),
        one_each(second),
        0 <= j < second.len(),
        forall|i: int|
            0 <= i < first.len() && (#[trigger] first[i]).entry.pid == second[j].entry.pid ==> {
                ||| first[i].entry.uid != s.uid
                ||| second[j].entry.uid != s.uid
                ||| first[i].usage is None
                ||| second[j].usage is None
                ||| first[i].usage->0.start_abstime != second[j].usage->0.start_abstime
                ||| first[i].usage->0.uuid != second[j].usage->0.uuid
            },
    ensures
        ({
            let row = rows_after(state_after(s, first), second, dt)[j];
            &&& row.energy_mw is None
            &&& row.disk_read_bps is None
            &&& row.disk_write_bps is None
            &&& row.wakeups_per_s is None
        }),
{
    row_at(state_after(s, first), second, dt, j);
    let pid = second[j].entry.pid;
    if exists|i: int| 0 <= i < first.len() && (#[trigger] first[i]).entry.pid == pid {
        let i = choose|i: int| 0 <= i < first.len() && (#[trigger] first[i]).entry.pid == pid;
        readings_are_kept(s.uid, first, i);
    } else {
        nothing_of(s.uid, first, pid);
    }
}

/// There is one row per reading, in order, and it says who the process is.
pub proof fn rows_name_their_processes(s: ProcState, rs: Seq<Reading>, dt: u64, j: int)
    requires
        0 <= j < rs.len(),
    ensures
        rows_after(s, rs, dt).len() == rs.len(),
        ({
            let row = rows_after(s, rs, dt)[j];
            &&& row.pid == rs[j].entry.pid
            &&& row.ppid == rs[j].entry.ppid
            &&& row.uid == rs[j].entry.uid
            &&& row.same_uid == (rs[j].entry.uid == s.uid)
            &&& row.executable == opt_text(rs[j].executable)
            &&& rs[j].entry.uid == s.uid ==> match rs[j].usage {
                Some(u) => row.start_abstime == Some(u.start_abstime) && row.footprint_bytes
                    == Some(u.phys_footprint) && row.lifetime_energy_j is Some && 1000
                    * row.lifetime_energy_j->0 <= u.energy_nj < 1000 * row.lifetime_energy_j->0
                    + 1000,
                None => row.start_abstime is None && row.footprint_bytes is None
                    && row.lifetime_energy_j is None && row.energy_mw is None,
            }
        }),
{
    row_at(s, rs, dt, j);
}

/// The best name: the program it was invoked as, else the program of its path,
/// else its command, else its number.
pub proof fn the_best_name_comes_first(
    pid: i32,
    comm: Seq<char>,
    invoked: Option<Seq<char>>,
    path: Option<Seq<char>>,
)
    ensures
        ({
            let n = best_name(pid, comm, invoked, path);
            let by_invoked = invoked is Some && basename_of(invoked->0) is Some;
            let by_path = path is Some && basename_of(path->0) is Some;
            &&& by_invoked ==> Some(n) == basename_of(invoked->0)
            &&& !by_invoked && by_path ==> Some(n) == basename_of(path->0)
            &&& !by_invoked && !by_path && comm.len() > 0 ==> n == comm
            &&& !by_invoked && !by_path && comm.len() == 0 ==> n == "pid "@ + signed_digits(
                pid as int,
            )
            &&& by_path ==> Some(name_by_path(pid, path)) == basename_of(path->0)
            &&& !by_path ==> name_by_path(pid, path) == "pid "@ + signed_digits(pid as int)
        }),
{
}

/// A word holds its four bytes, the lowest first; as a signed number it is two
/// to the thirty-second less from the sign bit on.
pub proof fn words_are_little_endian(buf: Seq<u8>, off: int)
    ensures
        word_at(buf, off) == buf[off] + 256 * buf[off + 1] + 65536 * buf[off + 2] + 16777216 * buf[
            off + 3],
        buf[off + 3] < 128 ==> int_at(buf, off) == word_at(buf, off),
        buf[off + 3] >= 128 ==> int_at(buf, off) == word_at(buf, off) - 4294967296,
{
}

/// An entry of the process list takes 648 bytes: the process at byte 40, the
/// command from byte 243 on for at most 17 bytes, the user at byte 420 and the
/// parent at byte 560. Entries without a process are passed over.
pub proof fn entries_stand_at_their_places(buf: Seq<u8>, n: int)
    requires
        n >= 0,
    ensures
        entries(buf, 0).len() == 0,
        ({
            let base = 648 * n;
            let pid = int_at(buf, base + 40);
            let e = entry_at(buf, base);
            &&& e.pid == pid
            &&& e.ppid == int_at(buf, base + 560)
            &&& e.uid == word_at(buf, base + 420)
            &&& e.comm == lossy_text(before_zero(buf.subrange(base + 243, base + 260)))
            &&& pid > 0 ==> entries(buf, n + 1) == entries(buf, n).push(e)
            &&& pid <= 0 ==> entries(buf, n + 1) == entries(buf, n)
        }),
{
}

/// A zero-terminated text ends before its first zero.
pub proof fn texts_end_at_the_first_zero(a: Seq<u8>, b: Seq<u8>)
    requires
        forall|i: int| 0 <= i < a.len() ==> a[i] != 0,
    ensures
        before_zero(a) == a,
        before_zero(a + seq![0u8] + b) == a,
    decreases a.len(),
{
    let s = a + seq![0u8] + b;
    if a.len() == 0 {
        assert(before_zero(a) =~= a);
        assert(before_zero(s) =~= a);
    } else {
        texts_end_at_the_first_zero(a.skip(1), b);
        assert(s.skip(1) =~= a.skip(1) + seq![0u8] + b);
        assert(before_zero(a) =~= a);
        assert(before_zero(s) =~= a);
    }
}

/// The invoked path stands behind the first four bytes of the argument block,
/// up to a zero; an empty one is none.
pub proof fn the_invoked_path_stands_behind_a_word(head: Seq<u8>, path: Seq<u8>, rest: Seq<u8>)
    requires
        head.len() == 4,
        forall|i: int| 0 <= i < path.len() ==> path[i] != 0,
    ensures
        lossy_text(path).len() > 0 ==> exec_path_in(Some(head + path + seq![0u8] + rest)) == Some(
            lossy_text(path),
        ),
        lossy_text(path).len() == 0 ==> exec_path_in(Some(head + path + seq![0u8] + rest)) is None,
        exec_path_in(None) is None,
        exec_path_in(Some(head.take(3))) is None,
{
    let all = head + path + seq![0u8] + rest;
    assert(all.skip(4) =~= path + seq![0u8] + rest);
    texts_end_at_the_first_zero(path, rest);
}

/// Each throughput is the growth of its own counter over the interval.
pub proof fn throughput_is_the_growth_of_its_counter(a: Counters, b: Counters, dt: u64)
    ensures
        ({
            let f = throughput(a, b, dt);
            let scale = 1_000_000_000_000_000;
            &&& is_rate(f.disk_read_bps, a.disk_read as int, b.disk_read as int, scale, dt)
            &&& is_rate(f.disk_write_bps, a.disk_write as int, b.disk_write as int, scale, dt)
            &&& is_rate(f.disk_iops, a.disk_ops as int, b.disk_ops as int, scale, dt)
            &&& is_rate(f.net_rx_bps, a.net_rx as int, b.net_rx as int, scale, dt)
            &&& is_rate(f.net_tx_bps, a.net_tx as int, b.net_tx as int, scale, dt)
        }),
{
    let t = if dt == 0 { 1 } else { dt as int };
    let scale = 1_000_000_000_000_000;
    growth_rate(a.disk_read as int, b.disk_read as int, scale, t);
    growth_rate(a.disk_write as int, b.disk_write as int, scale, t);
    growth_rate(a.disk_ops as int, b.disk_ops as int, scale, t);
    growth_rate(a.net_rx as int, b.net_rx as int, scale, t);
    growth_rate(a.net_tx as int, b.net_tx as int, scale, t);
}

/// A counter that is there and not negative.
pub open spec fn counted_value(v: Option<i64>) -> int {
    match v {
        Some(n) => if n < 0 { 0 } else { n as int },
        None => 0,
    }
}

/// Every driver adds its own counters, reads and writes to the operations, and
/// nothing to the network; totals wrap around.
pub proof fn drivers_add_their_counters(c: Counters, ds: Seq<DiskStatistics>, d: DiskStatistics)
    ensures
        with_disks(c, seq![]) == c,
        ({
            let before = with_disks(c, ds);
            let r = with_disks(c, ds.push(d));
            let m = 18446744073709551616;
            &&& r.disk_read == (before.disk_read + counted_value(d.bytes_read)) % m
            &&& r.disk_write == (before.disk_write + counted_value(d.bytes_written)) % m
            &&& r.disk_ops == (before.disk_ops + counted_value(d.reads) + counted_value(d.writes))
                % m
            &&& r.net_rx == before.net_rx
            &&& r.net_tx == before.net_tx
        }),
{
    assert(ds.push(d).drop_last() =~= ds);
}

/// Eight bytes as a number, the lowest first.
pub open spec fn eight_bytes(buf: Seq<u8>, off: int) -> int {
    buf[off] + 256 * (buf[off + 1] + 256 * (buf[off + 2] + 256 * (buf[off + 3] + 256 * (buf[off + 4]
        + 256 * (buf[off + 5] + 256 * (buf[off + 6] + 256 * buf[off + 7]))))))
}

/// A message about an interface, of type 0x12 at byte 3, adds the bytes
/// received at byte 96 and sent at byte 104, unless the interface at byte 32 is
/// the loopback, 0x18. Any other message adds nothing.
pub proof fn interfaces_add_their_traffic(c: Counters, buf: Seq<u8>, off: int)
    requires
        0 <= off,
        off + 160 <= buf.len(),
    ensures
        ({
            let r = with_message(c, buf, off);
            let counts = buf[off + 3] == 0x12 && buf[off + 32] != 0x18;
            let m = 18446744073709551616;
            &&& !counts ==> r == c
            &&& counts ==> r.net_rx == (c.net_rx + eight_bytes(buf, off + 96)) % m
            &&& counts ==> r.net_tx == (c.net_tx + eight_bytes(buf, off + 104)) % m
            &&& r.disk_read == c.disk_read
            &&& r.disk_write == c.disk_write
            &&& r.disk_ops == c.disk_ops
        }),
{
    crate::samplers::io::little_is_bounded(buf.subrange(off + 96, off + 104));
    crate::samplers::io::little_is_bounded(buf.subrange(off + 104, off + 112));
}

/// Messages follow each other by the length in their first two bytes; one that
/// is not whole, or has no length, ends the list.
pub proof fn messages_follow_by_their_length(c: Counters, buf: Seq<u8>, off: int)
    requires
        0 <= off,
    ensures
        ({
            let len = buf[off] + 256 * buf[off + 1];
            &&& off + 160 <= buf.len() && len > 0 ==> with_messages(c, buf, off) == with_messages(
                with_message(c, buf, off),
                buf,
                off + len,
            )
            &&& off + 160 > buf.len() || len == 0 ==> with_messages(c, buf, off) == c
        }),
{
}

/// The frame of a battery: power is voltage times current, to less than a
/// millionth of a milliwatt; the instantaneous current comes before the
/// average; what the gauge does not publish is nothing.
pub proof fn the_battery_frame_is_what_was_published(p: BatteryProperties, mv: i64, ma: i64)
    requires
        p.voltage == Some(mv),
        p.instant_amperage == Some(ma) || (p.instant_amperage is None && p.amperage == Some(ma)),
        -1000 * i64::MAX <= mv * ma <= 1000 * i64::MAX,
        -9_223_372_036_854 <= ma <= 9_223_372_036_854,
    ensures
        frame_of(p) is Some,
        ({
            let f = frame_of(p)->0;
            &&& -1000 < 1000 * f.system_power_mw - mv * ma < 1000
            &&& mv * ma >= 0 ==> f.system_power_mw >= 0
            &&& mv * ma <= 0 ==> f.system_power_mw <= 0
            &&& f.voltage_mv == mv
            &&& f.instant_amperage_ma == 1_000_000 * ma
            &&& p.current_capacity is Some ==> f.soc_percent == p.current_capacity->0
            &&& p.current_capacity is None ==> f.soc_percent == 0
            &&& p.temperature is Some ==> -100 < 100 * f.temperature_c - p.temperature->0 < 100
            &&& p.temperature is None ==> f.temperature_c == 0
            &&& f.is_charging == (p.is_charging == Some(true))
            &&& f.external_connected == (p.external_connected == Some(true))
            &&& f.time_remaining_min == match p.time_remaining {
                Some(m) => if 1 <= m <= 65534 { Some(m) } else { None },
                None => None,
            }
        }),
{
}

/// Without a voltage or a current there is no frame.
pub proof fn a_frame_needs_voltage_and_current(p: BatteryProperties)
    ensures
        p.voltage is None ==> frame_of(p) is None,
        p.instant_amperage is None && p.amperage is None ==> frame_of(p) is None,
{
}

/// The last submitter is a process where its number is positive and fits; in
/// use memory is read without a sign.
pub proof fn gpu_numbers_are_read_as_they_are(n: i64)
    ensures
        process_number(None) is None,
        1 <= n <= 2147483647 ==> process_number(Some(n)) is Some && process_number(Some(n))->0
            == n,
        n < 1 || n > 2147483647 ==> process_number(Some(n)) is None,
        n >= 0 ==> unsigned(n) == n,
        n < 0 ==> unsigned(n) == n + 18446744073709551616,
{
}

} // verus!
