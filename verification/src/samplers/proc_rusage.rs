//! Per-process rows: identity for every process, and CPU, energy, disk and
//! wakeup rates for the processes of the same user.
//!
//! The system lists every process, but lets a user read the counters of that
//! user's own processes only. Rows of other users carry `None` for every
//! metric.

use crate::bytes::lossy_text;
use crate::num::{self, capped_rate, rate, signed_digits};
use crate::samplers::procname::{self, basename_of, before_zero};
use crate::sampler::Sampler;
use crate::text::{self, opt_text};
use crate::types::{ProcRow, ProcRowView};
use std::collections::HashMap;
use vstd::prelude::*;
use vstd::std_specs::hash::*;
use vstd::string::*;

verus! {

broadcast use group_hash_axioms;

/// The size of one entry of the kernel's process list, and where its fields
/// stand: process id, command, user id and parent.
pub const KINFO_PROC_SIZE: usize = 648;

pub const OFF_P_PID: usize = 40;

pub const OFF_P_COMM: usize = 243;

pub const OFF_CR_UID: usize = 420;

pub const OFF_E_PPID: usize = 560;

pub const COMM_LEN: usize = 17;

/// One process of the kernel's list.
#[derive(Debug, Clone, PartialEq, Eq)]
pub struct ProcEntry {
    pub pid: i32,
    pub ppid: i32,
    pub uid: u32,
    pub comm: String,
}

/// `ProcEntry` with its command as a sequence.
pub ghost struct EntryView {
    pub pid: i32,
    pub ppid: i32,
    pub uid: u32,
    pub comm: Seq<char>,
}

impl View for ProcEntry {
    type V = EntryView;

    open spec fn view(&self) -> EntryView {
        EntryView { pid: self.pid, ppid: self.ppid, uid: self.uid, comm: self.comm@ }
    }
}

/// Four bytes as a number, the lowest first.
pub open spec fn word_at(buf: Seq<u8>, off: int) -> u32 {
    (buf[off] + buf[off + 1] * 0x100 + buf[off + 2] * 0x1_0000 + buf[off + 3] * 0x100_0000) as u32
}

/// Four bytes as a signed number, the lowest first.
pub open spec fn int_at(buf: Seq<u8>, off: int) -> i32 {
    let u = word_at(buf, off);
    if u < 0x8000_0000 {
        u as i32
    } else {
        (u - 0x1_0000_0000) as i32
    }
}

/// Reads four bytes as a number.
pub fn read_u32(buf: &[u8], off: usize) -> (r: u32)
    requires
        off + 4 <= buf@.len(),
    ensures
        r == word_at(buf@, off as int),
{
    buf[off] as u32 + buf[off + 1] as u32 * 0x100 + buf[off + 2] as u32 * 0x1_0000 + buf[off
        + 3] as u32 * 0x100_0000
}

/// Reads four bytes as a signed number.
pub fn read_i32(buf: &[u8], off: usize) -> (r: i32)
    requires
        off + 4 <= buf@.len(),
    ensures
        r == int_at(buf@, off as int),
{
    let u: u32 = read_u32(buf, off);
    if u < 0x8000_0000 {
        u as i32
    } else {
        (u as i64 - 0x1_0000_0000) as i32
    }
}

/// The entry that starts at `base`.
pub open spec fn entry_at(buf: Seq<u8>, base: int) -> EntryView {
    EntryView {
        pid: int_at(buf, base + OFF_P_PID),
        ppid: int_at(buf, base + OFF_E_PPID),
        uid: word_at(buf, base + OFF_CR_UID),
        comm: lossy_text(
            before_zero(buf.subrange(base + OFF_P_COMM, base + OFF_P_COMM + COMM_LEN)),
        ),
    }
}

/// The processes among the first `n` entries of the list.
pub open spec fn entries(buf: Seq<u8>, n: int) -> Seq<EntryView>
    decreases n,
{
    if n <= 0 {
        seq![]
    } else {
        let e = entry_at(buf, (n - 1) * KINFO_PROC_SIZE);
        if e.pid <= 0 {
            entries(buf, n - 1)
        } else {
            entries(buf, n - 1).push(e)
        }
    }
}

/// The views of some entries.
pub open spec fn entry_views(v: Seq<ProcEntry>) -> Seq<EntryView> {
    v.map_values(|e: ProcEntry| e@)
}

/// The processes in what the kernel wrote. A trailing part of an entry is
/// passed over, and so are entries without a process.
pub fn list_all_procs(buf: &[u8]) -> (r: Vec<ProcEntry>)
    ensures
        entry_views(r@) == entries(buf@, buf@.len() as int / KINFO_PROC_SIZE as int),
{
    let len: usize = buf.len();
    let n: usize = len / KINFO_PROC_SIZE;
    let mut out: Vec<ProcEntry> = Vec::new();
    let mut i: usize = 0;
    assert(entry_views(out@) =~= seq![]);
    while i < n
        invariant
            i <= n,
            n == len / KINFO_PROC_SIZE,
            len == buf@.len(),
            entry_views(out@) == entries(buf@, i as int),
        decreases n - i,
    {
        assert(i * 648 + 648 <= len) by (nonlinear_arith)
            requires
                i < n,
                n == len / 648,
        ;
        let base: usize = i * KINFO_PROC_SIZE;
        let pid: i32 = read_i32(buf, base + OFF_P_PID);
        if pid > 0 {
            let ppid: i32 = read_i32(buf, base + OFF_E_PPID);
            let uid: u32 = read_u32(buf, base + OFF_CR_UID);
            let comm = procname::read_cstr(
                vstd::slice::slice_subrange(
                    buf,
                    base + OFF_P_COMM,
                    base + OFF_P_COMM + COMM_LEN,
                ),
            );
            let ghost before = out@;
            out.push(ProcEntry { pid, ppid, uid, comm });
            assert(entry_views(out@) =~= entry_views(before).push(entry_at(buf@, base as int)));
        }
        i += 1;
    }
    out
}

/// The path in a process's argument block: it stands behind a word.
pub open spec fn exec_path_in(raw: Option<Seq<u8>>) -> Option<Seq<char>> {
    match raw {
        Some(bytes) => if bytes.len() < 4 || lossy_text(before_zero(bytes.skip(4))).len() == 0 {
            None
        } else {
            Some(lossy_text(before_zero(bytes.skip(4))))
        },
        None => None,
    }
}

/// The invoked path from a process's argument block, if it can be read.
pub fn procargs_exec_path(raw: Option<Vec<u8>>) -> (r: Option<String>)
    ensures
        opt_text(r) == exec_path_in(
            match raw {
                Some(b) => Some(b@),
                None => None,
            },
        ),
{
    match raw {
        Some(b) => {
            let n: usize = b.len();
            if n < 4 {
                return None;
            }
            assert(b@.subrange(4, n as int) =~= b@.skip(4));
            let path = procname::read_cstr(vstd::slice::slice_subrange(b.as_slice(), 4, n));
            if text::chars(path.as_str()).len() == 0 {
                None
            } else {
                Some(path)
            }
        },
        None => None,
    }
}

/// The best name for a process: from the path it was invoked by, from the path
/// of its executable, its command, or its number.
pub open spec fn best_name(
    pid: i32,
    comm: Seq<char>,
    exec_path: Option<Seq<char>>,
    path: Option<Seq<char>>,
) -> Seq<char> {
    if exec_path is Some && basename_of(exec_path->0) is Some {
        basename_of(exec_path->0)->0
    } else if path is Some && basename_of(path->0) is Some {
        basename_of(path->0)->0
    } else if comm.len() > 0 {
        comm
    } else {
        "pid "@ + signed_digits(pid as int)
    }
}

/// The best name for a process.
pub fn resolve_name(
    pid: i32,
    comm: &str,
    exec_path: &Option<String>,
    path: &Option<String>,
) -> (r: String)
    ensures
        r@ == best_name(pid, comm@, opt_text(*exec_path), opt_text(*path)),
{
    if let Some(p) = exec_path {
        if let Some(name) = procname::meaningful_basename(p.as_str()) {
            return name;
        }
    }
    if let Some(p) = path {
        if let Some(name) = procname::meaningful_basename(p.as_str()) {
            return name;
        }
    }
    if text::chars(comm).len() > 0 {
        return text::copy(comm);
    }
    let mut r = text::copy("pid ");
    r.append(num::signed(pid as i64).as_str());
    r
}

/// A process's counters since it started.
#[derive(Debug, Clone, Copy, PartialEq, Eq)]
pub struct Usage {
    pub uuid: u128,
    pub start_abstime: u64,
    pub phys_footprint: u64,
    pub energy_nj: u64,
    pub disk_read: u64,
    pub disk_written: u64,
    pub idle_wakeups: u64,
    pub interrupt_wakeups: u64,
}

impl Usage {
    /// Both are of the same run of the same program.
    pub open spec fn same_run(self, other: Usage) -> bool {
        self.start_abstime == other.start_abstime && self.uuid == other.uuid
    }

    /// All wakeups.
    pub open spec fn wakeups(self) -> int {
        self.idle_wakeups + self.interrupt_wakeups
    }
}

/// Stable birth counter of a process, for probes that can outlive its number.
pub fn process_start(usage: Option<Usage>) -> (r: Option<u64>)
    ensures
        r == match usage {
            Some(u) => Some(u.start_abstime),
            None => None,
        },
{
    match usage {
        Some(u) => Some(u.start_abstime),
        None => None,
    }
}

/// What could be read of one process at one instant.
#[derive(Debug, PartialEq, Eq)]
pub struct Reading {
    pub entry: ProcEntry,
    /// CPU time in user and system mode, in clock ticks.
    pub ticks: Option<(u64, u64)>,
    pub usage: Option<Usage>,
    pub executable: Option<String>,
    /// The path it was invoked by; needed only where a name is wanted.
    pub exec_path: Option<String>,
}

/// Growth of a counter that should not fall.
pub open spec fn growth(from: int, to: int) -> int {
    if to > from {
        to - from
    } else {
        0
    }
}

/// An interval of at least one nanosecond.
pub open spec fn interval(dt_ns: u64) -> int {
    if dt_ns == 0 {
        1
    } else {
        dt_ns as int
    }
}

/// What the sampler knows of the tick before.
pub ghost struct ProcState {
    pub uid: u32,
    pub timebase_num: u32,
    pub timebase_den: u32,
    pub prev_rusage: Map<i32, Usage>,
    pub prev_cpu: Map<i32, u128>,
    pub names: Map<i32, Seq<char>>,
}

/// The CPU ticks of a process of the same user.
pub open spec fn ticks_of(uid: u32, r: Reading) -> Option<u128> {
    match r.ticks {
        Some((user, system)) => if r.entry.uid == uid {
            Some((user + system) as u128)
        } else {
            None
        },
        None => None,
    }
}

/// The counters of a process of the same user.
pub open spec fn usage_of(uid: u32, r: Reading) -> Option<Usage> {
    if r.entry.uid == uid {
        r.usage
    } else {
        None
    }
}

/// The number was that of another process at the tick before.
pub open spec fn reused(s: ProcState, r: Reading) -> bool {
    let pid = r.entry.pid;
    usage_of(s.uid, r) is Some && s.prev_rusage.dom().contains(pid)
        && !s.prev_rusage[pid].same_run(usage_of(s.uid, r)->0)
}

/// The process was there at the tick before.
pub open spec fn continued(s: ProcState, r: Reading) -> bool {
    let pid = r.entry.pid;
    usage_of(s.uid, r) is Some && s.prev_rusage.dom().contains(pid)
        && s.prev_rusage[pid].same_run(usage_of(s.uid, r)->0)
}

/// CPU use over the interval in percent of one core.
pub open spec fn cpu_of(s: ProcState, r: Reading, dt_ns: u64) -> Option<u64> {
    let pid = r.entry.pid;
    if reused(s, r) {
        None
    } else {
        match ticks_of(s.uid, r) {
            Some(now) => if s.prev_cpu.dom().contains(pid) {
                Some(
                    capped_rate(
                        growth(s.prev_cpu[pid] as int, now as int) * s.timebase_num * 100_000_000 / (
                        s.timebase_den * interval(dt_ns)),
                    ),
                )
            } else {
                None
            },
            None => None,
        }
    }
}

/// The rate of a counter of a process that was there at the tick before.
pub open spec fn rate_since(
    s: ProcState,
    r: Reading,
    dt_ns: u64,
    from: int,
    to: int,
    scale: int,
) -> Option<u64> {
    if continued(s, r) {
        Some(rate(growth(from, to), scale, interval(dt_ns)))
    } else {
        None
    }
}

/// The names without that of a process whose number was reused.
pub open spec fn names_before(
    s: ProcState,
    names: Map<i32, Seq<char>>,
    r: Reading,
) -> Map<i32, Seq<char>> {
    if reused(s, r) {
        names.remove(r.entry.pid)
    } else {
        names
    }
}

/// The name of a process: the one it got when it was first seen.
pub open spec fn name_of(s: ProcState, names: Map<i32, Seq<char>>, r: Reading) -> Seq<char> {
    let pid = r.entry.pid;
    let known = names_before(s, names, r);
    if known.dom().contains(pid) {
        known[pid]
    } else {
        best_name(pid, r.entry.comm@, opt_text(r.exec_path), opt_text(r.executable))
    }
}

/// The row of one process.
pub open spec fn row_of(
    s: ProcState,
    names: Map<i32, Seq<char>>,
    r: Reading,
    dt_ns: u64,
) -> ProcRowView {
    let usage = usage_of(s.uid, r);
    let old = s.prev_rusage[r.entry.pid];
    ProcRowView {
        pid: r.entry.pid,
        start_abstime: match usage {
            Some(u) => Some(u.start_abstime),
            None => None,
        },
        executable: opt_text(r.executable),
        footprint_bytes: match usage {
            Some(u) => Some(u.phys_footprint),
            None => None,
        },
        ppid: r.entry.ppid,
        uid: r.entry.uid,
        same_uid: r.entry.uid == s.uid,
        name: name_of(s, names, r),
        cpu_percent: cpu_of(s, r, dt_ns),
        energy_mw: rate_since(
            s,
            r,
            dt_ns,
            old.energy_nj as int,
            usage->0.energy_nj as int,
            1_000_000_000,
        ),
        lifetime_energy_j: match usage {
            Some(u) => Some((u.energy_nj / 1000) as u64),
            None => None,
        },
        disk_read_bps: rate_since(
            s,
            r,
            dt_ns,
            old.disk_read as int,
            usage->0.disk_read as int,
            1_000_000_000_000_000,
        ),
        disk_write_bps: rate_since(
            s,
            r,
            dt_ns,
            old.disk_written as int,
            usage->0.disk_written as int,
            1_000_000_000_000_000,
        ),
        wakeups_per_s: rate_since(
            s,
            r,
            dt_ns,
            old.wakeups(),
            usage->0.wakeups(),
            1_000_000_000_000_000,
        ),
    }
}

/// The names after some readings.
pub open spec fn names_after(s: ProcState, rs: Seq<Reading>) -> Map<i32, Seq<char>>
    decreases rs.len(),
{
    if rs.len() == 0 {
        s.names
    } else {
        let names = names_after(s, rs.drop_last());
        let r = rs.last();
        names_before(s, names, r).insert(r.entry.pid, name_of(s, names, r))
    }
}

/// The rows of some readings.
pub open spec fn rows_after(s: ProcState, rs: Seq<Reading>, dt_ns: u64) -> Seq<ProcRowView>
    decreases rs.len(),
{
    if rs.len() == 0 {
        seq![]
    } else {
        rows_after(s, rs.drop_last(), dt_ns).push(
            row_of(s, names_after(s, rs.drop_last()), rs.last(), dt_ns),
        )
    }
}

/// The counters of some readings.
pub open spec fn usage_after(uid: u32, rs: Seq<Reading>) -> Map<i32, Usage>
    decreases rs.len(),
{
    if rs.len() == 0 {
        Map::empty()
    } else {
        let m = usage_after(uid, rs.drop_last());
        match usage_of(uid, rs.last()) {
            Some(u) => m.insert(rs.last().entry.pid, u),
            None => m,
        }
    }
}

/// The CPU ticks of some readings.
pub open spec fn ticks_after(uid: u32, rs: Seq<Reading>) -> Map<i32, u128>
    decreases rs.len(),
{
    if rs.len() == 0 {
        Map::empty()
    } else {
        let m = ticks_after(uid, rs.drop_last());
        match ticks_of(uid, rs.last()) {
            Some(t) => m.insert(rs.last().entry.pid, t),
            None => m,
        }
    }
}

/// The names of the processes that were read.
pub open spec fn live_names(
    names: Map<i32, Seq<char>>,
    rs: Seq<Reading>,
) -> Map<i32, Seq<char>>
    decreases rs.len(),
{
    if rs.len() == 0 {
        Map::empty()
    } else {
        live_names(names, rs.drop_last()).insert(
            rs.last().entry.pid,
            names[rs.last().entry.pid],
        )
    }
}

/// The state after a tick.
pub open spec fn state_after(s: ProcState, rs: Seq<Reading>) -> ProcState {
    ProcState {
        prev_rusage: usage_after(s.uid, rs),
        prev_cpu: ticks_after(s.uid, rs),
        names: live_names(names_after(s, rs), rs),
        ..s
    }
}

/// Differences the readings of every process.
pub struct ProcRusageSampler {
    pub uid: u32,
    /// One clock tick is this many nanoseconds ...
    pub timebase_num: u32,
    /// ... divided by this.
    pub timebase_den: u32,
    pub prev_rusage: HashMap<i32, Usage>,
    pub prev_cpu: HashMap<i32, u128>,
    pub names: HashMap<i32, String>,
}

/// The texts of a map.
pub open spec fn text_map(m: Map<i32, String>) -> Map<i32, Seq<char>> {
    m.map_values(|s: String| s@)
}

impl View for ProcRusageSampler {
    type V = ProcState;

    open spec fn view(&self) -> ProcState {
        ProcState {
            uid: self.uid,
            timebase_num: self.timebase_num,
            timebase_den: self.timebase_den,
            prev_rusage: self.prev_rusage@,
            prev_cpu: self.prev_cpu@,
            names: text_map(self.names@),
        }
    }
}

fn grown(from: u128, to: u128) -> (r: u128)
    ensures
        r == growth(from as int, to as int),
{
    if to > from {
        to - from
    } else {
        0
    }
}

fn span(dt_ns: u64) -> (r: u128)
    ensures
        r == interval(dt_ns),
        r > 0,
{
    if dt_ns == 0 {
        1
    } else {
        dt_ns as u128
    }
}

impl ProcRusageSampler {
    /// A sampler for the processes of a user, on a clock whose tick takes
    /// `timebase_num / timebase_den` nanoseconds.
    pub fn new(uid: u32, timebase_num: u32, timebase_den: u32) -> (r: ProcRusageSampler)
        ensures
            r@ == (ProcState {
                uid,
                timebase_num,
                timebase_den,
                prev_rusage: Map::empty(),
                prev_cpu: Map::empty(),
                names: Map::empty(),
            }),
    {
        let r = ProcRusageSampler {
            uid,
            timebase_num,
            timebase_den,
            prev_rusage: HashMap::new(),
            prev_cpu: HashMap::new(),
            names: HashMap::new(),
        };
        proof {
            assert(r.prev_rusage@ =~= Map::empty());
            assert(r.prev_cpu@ =~= Map::empty());
            assert(text_map(r.names@) =~= Map::empty());
        }
        r
    }

    fn own_usage(&self, r: &Reading) -> (u: Option<Usage>)
        ensures
            u == usage_of(self.uid, *r),
    {
        if r.entry.uid == self.uid {
            r.usage
        } else {
            None
        }
    }

    fn own_ticks(&self, r: &Reading) -> (t: Option<u128>)
        ensures
            t == ticks_of(self.uid, *r),
            t is Some ==> t->0 <= 0x1_ffff_ffff_ffff_ffff,
    {
        match r.ticks {
            Some((user, system)) => if r.entry.uid == self.uid {
                Some(user as u128 + system as u128)
            } else {
                None
            },
            None => None,
        }
    }

    /// The counters of the same run at the tick before.
    fn before(&self, r: &Reading) -> (p: (Option<Usage>, bool))
        ensures
            p.1 == reused(self@, *r),
            p.0 is Some == continued(self@, *r),
            p.0 is Some ==> p.0->0 == self@.prev_rusage[r.entry.pid],
    {
        match self.own_usage(r) {
            Some(u) => match self.prev_rusage.get(&r.entry.pid) {
                Some(p) => if p.start_abstime == u.start_abstime && p.uuid == u.uuid {
                    (Some(*p), false)
                } else {
                    (None, true)
                },
                None => (None, false),
            },
            None => (None, false),
        }
    }

    /// Whether a name has to be found for a process: it has none yet, or its
    /// number was reused.
    pub fn wants_name(&self, r: &Reading) -> (w: bool)
        ensures
            w == (reused(self@, *r) || !self@.names.dom().contains(r.entry.pid)),
    {
        self.before(r).1 || !self.names.contains_key(&r.entry.pid)
    }

    fn cpu_percent(&self, r: &Reading, dt_ns: u64) -> (c: Option<u64>)
        requires
            self.timebase_den > 0,
        ensures
            c == cpu_of(self@, *r, dt_ns),
    {
        if self.before(r).1 {
            return None;
        }
        let now: u128 = match self.own_ticks(r) {
            Some(t) => t,
            None => {
                return None;
            },
        };
        match self.prev_cpu.get(&r.entry.pid) {
            Some(prev) => {
                let d: u128 = grown(*prev, now);
                let n: u128 = self.timebase_num as u128;
                let den: u128 = self.timebase_den as u128;
                let dt: u128 = span(dt_ns);
                proof {
                    assert(0 <= d * n <= 0x1_ffff_ffff_ffff_ffff * 0xffff_ffff) by (nonlinear_arith)
                        requires
                            0 <= d <= 0x1_ffff_ffff_ffff_ffff,
                            0 <= n <= 0xffff_ffff,
                    ;
                    assert(0 < den * dt <= 0xffff_ffff * 0xffff_ffff_ffff_ffff)
                        by (nonlinear_arith)
                        requires
                            0 < den <= 0xffff_ffff,
                            0 < dt <= 0xffff_ffff_ffff_ffff,
                    ;
                }
                let q: u128 = d * n * 100_000_000 / (den * dt);
                if q > u64::MAX as u128 {
                    Some(u64::MAX)
                } else {
                    Some(q as u64)
                }
            },
            None => None,
        }
    }

    fn row(&self, r: &Reading, name: String, dt_ns: u64) -> (row: ProcRow)
        requires
            self.timebase_den > 0,
        ensures
            forall|names: Map<i32, Seq<char>>|
                name@ == name_of(self@, names, *r) ==> row@ == #[trigger] row_of(
                    self@,
                    names,
                    *r,
                    dt_ns,
                ),
    {
        let usage = self.own_usage(r);
        let (prev, _) = self.before(r);
        let dt: u128 = span(dt_ns);
        let mut energy_mw: Option<u64> = None;
        let mut disk_read_bps: Option<u64> = None;
        let mut disk_write_bps: Option<u64> = None;
        let mut wakeups_per_s: Option<u64> = None;
        let mut start_abstime: Option<u64> = None;
        let mut footprint_bytes: Option<u64> = None;
        let mut lifetime_energy_j: Option<u64> = None;
        if let Some(u) = usage {
            start_abstime = Some(u.start_abstime);
            footprint_bytes = Some(u.phys_footprint);
            lifetime_energy_j = Some(u.energy_nj / 1000);
            if let Some(p) = prev {
                let d_energy: u128 = grown(p.energy_nj as u128, u.energy_nj as u128);
                let d_read: u128 = grown(p.disk_read as u128, u.disk_read as u128);
                let d_written: u128 = grown(p.disk_written as u128, u.disk_written as u128);
                let d_wakeups: u128 = grown(
                    p.idle_wakeups as u128 + p.interrupt_wakeups as u128,
                    u.idle_wakeups as u128 + u.interrupt_wakeups as u128,
                );
                energy_mw = Some(num::rate_of(d_energy, 1_000_000_000, dt));
                disk_read_bps = Some(num::rate_of(d_read, 1_000_000_000_000_000, dt));
                disk_write_bps = Some(num::rate_of(d_written, 1_000_000_000_000_000, dt));
                wakeups_per_s = Some(num::rate_of(d_wakeups, 1_000_000_000_000_000, dt));
            }
        }
        ProcRow {
            pid: r.entry.pid,
            start_abstime,
            executable: text::copy_opt(&r.executable),
            footprint_bytes,
            ppid: r.entry.ppid,
            uid: r.entry.uid,
            same_uid: r.entry.uid == self.uid,
            name,
            cpu_percent: self.cpu_percent(r, dt_ns),
            energy_mw,
            lifetime_energy_j,
            disk_read_bps,
            disk_write_bps,
            wakeups_per_s,
        }
    }

    /// One row per reading, over the interval since the tick before. Rates
    /// appear for processes that were there at the tick before as well.
    pub fn tick(&mut self, dt_ns: u64, readings: &Vec<Reading>) -> (rows: Vec<ProcRow>)
        requires
            old(self).timebase_den > 0,
        ensures
            final(self)@ == state_after(old(self)@, readings@),
            row_views(rows@) == rows_after(old(self)@, readings@, dt_ns),
    {
        let ghost s = self@;
        let mut rows: Vec<ProcRow> = Vec::new();
        let mut cur_rusage: HashMap<i32, Usage> = HashMap::new();
        let mut cur_cpu: HashMap<i32, u128> = HashMap::new();
        let mut names: HashMap<i32, String> = self.take_names();
        let mut i: usize = 0;
        proof {
            assert(readings@.take(0) =~= seq![]);
            assert(row_views(rows@) =~= seq![]);
            assert(cur_rusage@ =~= Map::empty());
            assert(cur_cpu@ =~= Map::empty());
        }
        while i < readings.len()
            invariant
                i <= readings@.len(),
                self.timebase_den > 0,
                s == old(self)@,
                s == (ProcState { names: s.names, ..self@ }),
                text_map(names@) == names_after(s, readings@.take(i as int)),
                row_views(rows@) == rows_after(s, readings@.take(i as int), dt_ns),
                cur_rusage@ == usage_after(s.uid, readings@.take(i as int)),
                cur_cpu@ == ticks_after(s.uid, readings@.take(i as int)),
            decreases readings.len() - i,
        {
            let ghost done = readings@.take(i as int);
            proof {
                assert(readings@.take(i + 1).drop_last() =~= done);
                assert(readings@.take(i + 1).last() == readings@[i as int]);
            }
            let r = &readings[i];
            let pid: i32 = r.entry.pid;
            if let Some(t) = self.own_ticks(r) {
                cur_cpu.insert(pid, t);
            }
            if let Some(u) = self.own_usage(r) {
                cur_rusage.insert(pid, u);
            }
            let ghost known = text_map(names@);
            if self.before(r).1 {
                names.remove(&pid);
            }
            proof {
                assert(reused(self@, *r) == reused(s, *r));
                assert(text_map(names@) =~= names_before(s, known, *r));
            }
            let name = match names.get(&pid) {
                Some(n) => n.clone(),
                None => resolve_name(pid, r.entry.comm.as_str(), &r.exec_path, &r.executable),
            };
            assert(name@ == name_of(s, known, *r));
            let ghost before = names@;
            names.insert(pid, name.clone());
            proof {
                assert(text_map(names@) =~= text_map(before).insert(pid, name@));
                assert(name_of(self@, known, *r) == name_of(s, known, *r));
                assert(row_of(self@, known, *r, dt_ns) == row_of(s, known, *r, dt_ns));
            }
            let ghost listed = rows@;
            let row = self.row(r, name, dt_ns);
            rows.push(row);
            assert(row_views(rows@) =~= row_views(listed).push(row@));
            i += 1;
        }
        proof {
            assert(readings@.take(i as int) =~= readings@);
            names_cover_readings(s, readings@);
            assert forall|k: int| 0 <= k < readings@.len() implies names@.dom().contains(
                (#[trigger] readings@[k]).entry.pid,
            ) by {
                assert(text_map(names@).dom().contains(readings@[k].entry.pid));
            }
        }
        let kept = live(&names, readings);
        self.prev_rusage = cur_rusage;
        self.prev_cpu = cur_cpu;
        self.names = kept;
        rows
    }

    fn take_names(&mut self) -> (r: HashMap<i32, String>)
        ensures
            r == old(self).names,
            final(self)@ == (ProcState { names: final(self)@.names, ..old(self)@ }),
    {
        let mut taken: HashMap<i32, String> = HashMap::new();
        std::mem::swap(&mut taken, &mut self.names);
        taken
    }
}

/// The views of some rows.
pub open spec fn row_views(v: Seq<ProcRow>) -> Seq<ProcRowView> {
    v.map_values(|r: ProcRow| r@)
}

proof fn names_cover_readings(s: ProcState, rs: Seq<Reading>)
    ensures
        forall|i: int|
            0 <= i < rs.len() ==> names_after(s, rs).dom().contains(
                (#[trigger] rs[i]).entry.pid,
            ),
    decreases rs.len(),
{
    if rs.len() > 0 {
        names_cover_readings(s, rs.drop_last());
        assert forall|i: int| 0 <= i < rs.len() implies names_after(s, rs).dom().contains(
            (#[trigger] rs[i]).entry.pid,
        ) by {
            if i < rs.len() - 1 {
                assert(rs.drop_last()[i] == rs[i]);
            }
        }
    }
}

/// Keeps the names of the processes that were read.
fn live(names: &HashMap<i32, String>, readings: &Vec<Reading>) -> (r: HashMap<i32, String>)
    requires
        forall|i: int|
            0 <= i < readings@.len() ==> names@.dom().contains(
                (#[trigger] readings@[i]).entry.pid,
            ),
    ensures
        text_map(r@) == live_names(text_map(names@), readings@),
{
    let mut kept: HashMap<i32, String> = HashMap::new();
    let mut i: usize = 0;
    proof {
        assert(readings@.take(0) =~= seq![]);
        assert(text_map(kept@) =~= Map::empty());
    }
    while i < readings.len()
        invariant
            i <= readings@.len(),
            forall|i: int|
                0 <= i < readings@.len() ==> names@.dom().contains(
                    (#[trigger] readings@[i]).entry.pid,
                ),
            text_map(kept@) == live_names(text_map(names@), readings@.take(i as int)),
        decreases readings.len() - i,
    {
        let pid: i32 = readings[i].entry.pid;
        proof {
            assert(names@.dom().contains(readings@[i as int].entry.pid));
            assert(readings@.take(i + 1).drop_last() =~= readings@.take(i as int));
            assert(readings@.take(i + 1).last() == readings@[i as int]);
        }
        if let Some(n) = names.get(&pid) {
            let ghost before = kept@;
            kept.insert(pid, n.clone());
            assert(text_map(kept@) =~= text_map(before).insert(pid, n@));
        }
        i += 1;
    }
    assert(readings@.take(i as int) =~= readings@);
    kept
}

impl Sampler for ProcRusageSampler {
    fn name(&self) -> (r: &'static str)
        ensures
            r@ == "proc cpu+rusage"@,
    {
        "proc cpu+rusage"
    }
}

/// A process whose number was used by another one before has no rates: none
/// of its counters is measured against another process's.
pub proof fn a_reused_number_has_no_rates(
    s: ProcState,
    names: Map<i32, Seq<char>>,
    r: Reading,
    dt_ns: u64,
)
    requires
        reused(s, r),
    ensures
        ({
            let row = row_of(s, names, r, dt_ns);
            &&& row.cpu_percent is None
            &&& row.energy_mw is None
            &&& row.disk_read_bps is None
            &&& row.disk_write_bps is None
            &&& row.wakeups_per_s is None
            &&& row.name == best_name(
                r.entry.pid,
                r.entry.comm@,
                opt_text(r.exec_path),
                opt_text(r.executable),
            )
        }),
{
}

/// The row of another user's process names it and its owner, and holds no
/// metric, whatever was read.
pub proof fn other_users_have_no_metrics(
    s: ProcState,
    names: Map<i32, Seq<char>>,
    r: Reading,
    dt_ns: u64,
)
    requires
        r.entry.uid != s.uid,
    ensures
        ({
            let row = row_of(s, names, r, dt_ns);
            &&& !row.same_uid
            &&& row.pid == r.entry.pid
            &&& row.uid == r.entry.uid
            &&& row.start_abstime is None
            &&& row.footprint_bytes is None
            &&& row.cpu_percent is None
            &&& row.energy_mw is None
            &&& row.lifetime_energy_j is None
            &&& row.disk_read_bps is None
            &&& row.disk_write_bps is None
            &&& row.wakeups_per_s is None
        }),
{
}

proof fn live_names_are_of_readings(names: Map<i32, Seq<char>>, rs: Seq<Reading>)
    ensures
        forall|pid: i32| #[trigger]
            live_names(names, rs).dom().contains(pid) <==> exists|i: int|
                0 <= i < rs.len() && (#[trigger] rs[i]).entry.pid == pid,
    decreases rs.len(),
{
    if rs.len() > 0 {
        let less = rs.drop_last();
        live_names_are_of_readings(names, less);
        assert forall|pid: i32| #[trigger]
            live_names(names, rs).dom().contains(pid) <==> exists|i: int|
                0 <= i < rs.len() && (#[trigger] rs[i]).entry.pid == pid by {
            if live_names(names, less).dom().contains(pid) {
                let i = choose|i: int| 0 <= i < less.len() && (#[trigger] less[i]).entry.pid == pid;
                assert(rs[i].entry.pid == pid);
            }
            if rs.last().entry.pid == pid {
                assert(rs[rs.len() - 1].entry.pid == pid);
            }
            if exists|i: int| 0 <= i < rs.len() && (#[trigger] rs[i]).entry.pid == pid {
                let i = choose|i: int| 0 <= i < rs.len() && (#[trigger] rs[i]).entry.pid == pid;
                if i < rs.len() - 1 {
                    assert(less[i].entry.pid == pid);
                }
            }
        }
    }
}

/// The sampler remembers the processes of the last tick and no others.
pub proof fn exited_processes_are_forgotten(s: ProcState, rs: Seq<Reading>, pid: i32)
    requires
        forall|i: int| 0 <= i < rs.len() ==> (#[trigger] rs[i]).entry.pid != pid,
    ensures
        !state_after(s, rs).names.dom().contains(pid),
        !state_after(s, rs).prev_rusage.dom().contains(pid),
        !state_after(s, rs).prev_cpu.dom().contains(pid),
{
    live_names_are_of_readings(names_after(s, rs), rs);
    nothing_is_kept_of(s.uid, rs, pid);
}

proof fn nothing_is_kept_of(uid: u32, rs: Seq<Reading>, pid: i32)
    requires
        forall|i: int| 0 <= i < rs.len() ==> (#[trigger] rs[i]).entry.pid != pid,
    ensures
        !usage_after(uid, rs).dom().contains(pid),
        !ticks_after(uid, rs).dom().contains(pid),
    decreases rs.len(),
{
    if rs.len() > 0 {
        let less = rs.drop_last();
        assert forall|i: int| 0 <= i < less.len() implies (#[trigger] less[i]).entry.pid
            != pid by {
            assert(rs[i].entry.pid != pid);
        }
        nothing_is_kept_of(uid, less, pid);
        assert(rs[rs.len() - 1].entry.pid != pid);
    }
}

} // verus!
