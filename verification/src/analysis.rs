//! How a ledger accounts: intervals, windows around changes, and groups.
//!
//! Power is in nanowatts and intervals are in nanoseconds, so energy is in
//! attojoules. Times of events count millionths of a second, as in the record.
//! Totals stop at the largest value they can hold.

use crate::inspection::Inspection;
use crate::num::{self, capped, fixed};
use crate::order::{self, key_of, ranking, Key};
use crate::text::{self, first_from, pieces};
use crate::types::{ProcRow, Sample};
use std::collections::VecDeque;
use vstd::prelude::*;
use vstd::string::*;

verus! {

/// Nanoseconds in one second.
pub const SECOND: i128 = 1_000_000_000;

/// A count that stops at the largest value.
pub open spec fn bumped(n: u64) -> u64 {
    if n == u64::MAX {
        n
    } else {
        (n + 1) as u64
    }
}

pub(crate) fn bump(n: u64) -> (r: u64)
    ensures
        r == bumped(n),
{
    if n == u64::MAX {
        n
    } else {
        n + 1
    }
}

/// What one group of processes used during the recording.
#[derive(Debug, Clone, PartialEq, Eq)]
pub struct Consumer {
    pub name: String,
    /// CPU energy in attojoules.
    pub cpu_j: u128,
    /// CPU time in units of 1e-17 s.
    pub cpu_s: u128,
    /// Wakeups in units of 1e-15.
    pub wakeups: u128,
    /// Disk traffic in units of 1e-15 bytes.
    pub disk_bytes: u128,
    pub samples: u64,
    pub energy_samples: u64,
}

/// `Consumer` with its name as a sequence.
pub ghost struct ConsumerView {
    pub name: Seq<char>,
    pub cpu_j: u128,
    pub cpu_s: u128,
    pub wakeups: u128,
    pub disk_bytes: u128,
    pub samples: u64,
    pub energy_samples: u64,
}

impl View for Consumer {
    type V = ConsumerView;

    open spec fn view(&self) -> ConsumerView {
        ConsumerView {
            name: self.name@,
            cpu_j: self.cpu_j,
            cpu_s: self.cpu_s,
            wakeups: self.wakeups,
            disk_bytes: self.disk_bytes,
            samples: self.samples,
            energy_samples: self.energy_samples,
        }
    }
}

/// One interval of the battery history: it ends at `t` and took `dt`. Its mean
/// discharge is in nanowatts, if it is known.
#[derive(Debug, Clone, Copy, PartialEq, Eq)]
pub struct Point {
    pub t: i64,
    pub dt: u64,
    pub w: Option<u64>,
}

/// Energy in attojoules over observed nanoseconds.
#[derive(Debug, Clone, Copy, PartialEq, Eq)]
pub struct Window {
    pub joules: u128,
    pub seconds: u128,
}

/// The smaller of two numbers.
pub open spec fn lesser(a: int, b: int) -> int {
    if a < b {
        a
    } else {
        b
    }
}

/// The greater of two numbers.
pub open spec fn greater(a: int, b: int) -> int {
    if a > b {
        a
    } else {
        b
    }
}

/// A time of the record in nanoseconds.
pub open spec fn nanos(t: i64) -> int {
    t * 1000
}

/// How long the interval of a point and the span from `from` to `to` overlap.
pub open spec fn overlap(p: Point, from: int, to: int) -> int {
    greater(0, lesser(nanos(p.t), to) - greater(nanos(p.t) - p.dt, from))
}

/// A window that the part of a point inside a span was added to. An interval
/// without a reading adds neither energy nor time.
pub open spec fn widened(w: Window, p: Point, from: int, to: int) -> Window {
    match p.w {
        Some(power) => Window {
            joules: capped(w.joules + power * overlap(p, from, to)),
            seconds: capped(w.seconds + overlap(p, from, to)),
        },
        None => w,
    }
}

/// The window of a span over some points.
pub open spec fn window_over(points: Seq<Point>, from: int, to: int) -> Window
    decreases points.len(),
{
    if points.len() == 0 {
        Window { joules: 0, seconds: 0 }
    } else {
        widened(window_over(points.drop_last(), from, to), points.last(), from, to)
    }
}

impl Window {
    /// Mean power over the observed time; unknown if there is none.
    pub open spec fn mean_of(self) -> Option<u128> {
        if self.seconds > 0 {
            Some((self.joules as int / self.seconds as int) as u128)
        } else {
            None
        }
    }

    /// A window that nothing was added to.
    pub fn empty() -> (r: Window)
        ensures
            r == (Window { joules: 0, seconds: 0 }),
    {
        Window { joules: 0, seconds: 0 }
    }

    /// Mean power in nanowatts.
    pub fn mean(&self) -> (r: Option<u128>)
        ensures
            r == self.mean_of(),
    {
        if self.seconds > 0 {
            Some(self.joules / self.seconds)
        } else {
            None
        }
    }

    /// Adds the part of a point's interval that lies inside a span.
    pub fn add(&mut self, p: &Point, from: i128, to: i128)
        ensures
            *final(self) == widened(*old(self), *p, from as int, to as int),
    {
        if let Some(power) = p.w {
            let end: i128 = p.t as i128 * 1000;
            let start: i128 = end - p.dt as i128;
            let upper: i128 = if end < to {
                end
            } else {
                to
            };
            let lower: i128 = if start > from {
                start
            } else {
                from
            };
            let shared: u128 = if upper > lower {
                (upper - lower) as u128
            } else {
                0
            };
            assert(shared == overlap(*p, from as int, to as int));
            self.joules = num::sum_capped(self.joules, num::times_capped(power as u128, shared));
            self.seconds = num::sum_capped(self.seconds, shared);
            proof {
                assert(0 <= power * shared) by (nonlinear_arith)
                    requires
                        power >= 0,
                        shared >= 0,
                ;
                num::capped_sum(old(self).joules as int, power * shared);
            }
        }
    }
}

/// Battery power before and after a change that was marked.
#[derive(Debug, Clone, PartialEq, Eq)]
pub struct Comparison {
    pub t: i64,
    pub label: String,
    pub before: Window,
    pub after: Window,
}

/// The span before a change that it is compared with.
pub open spec fn span_before(t: i64) -> (int, int) {
    (nanos(t) - 60 * SECOND, nanos(t))
}

/// The span after a change, once it has settled.
pub open spec fn span_after(t: i64) -> (int, int) {
    (nanos(t) + 15 * SECOND, nanos(t) + 75 * SECOND)
}

/// A difference of two means with one decimal and its sign.
pub open spec fn difference(from: u128, to: u128) -> Seq<char> {
    if to < from {
        "-"@ + fixed((from - to) as nat, 100_000_000, 1)
    } else {
        "+"@ + fixed((to - from) as nat, 100_000_000, 1)
    }
}

/// Whole seconds of coverage, at most a minute.
pub open spec fn coverage(seconds: u128) -> Seq<char> {
    fixed(lesser(seconds as int, 60 * SECOND) as nat, 1_000_000_000, 0)
}

impl Comparison {
    /// Both windows are observed almost whole.
    pub open spec fn is_ready(self) -> bool {
        self.before.seconds >= 59 * SECOND && self.after.seconds >= 59 * SECOND
    }

    /// What the comparison says.
    pub open spec fn text(self) -> Seq<char> {
        if self.is_ready() {
            let a = self.before.mean_of()->0;
            let b = self.after.mean_of()->0;
            self.label@ + ": "@ + fixed(a as nat, 100_000_000, 1) + " → "@ + fixed(
                b as nat,
                100_000_000,
                1,
            ) + " W ("@ + difference(a, b) + " W). Association; repeat to confirm."@
        } else {
            self.label@ + ": battery coverage before "@ + coverage(self.before.seconds)
                + "/60 s, after "@ + coverage(self.after.seconds) + "/60 s (15 s settling)."@
        }
    }

    pub fn ready(&self) -> (r: bool)
        ensures
            r == self.is_ready(),
    {
        self.before.seconds >= 59_000_000_000 && self.after.seconds >= 59_000_000_000
    }

    pub fn description(&self) -> (r: String)
        ensures
            r@ == self.text(),
    {
        let mut r = text::copy(self.label.as_str());
        if self.ready() {
            let a: u128 = self.before.joules / self.before.seconds;
            let b: u128 = self.after.joules / self.after.seconds;
            r.append(": ");
            r.append(num::render(a, 100_000_000, 1).as_str());
            r.append(" → ");
            r.append(num::render(b, 100_000_000, 1).as_str());
            r.append(" W (");
            let mut d = text::copy("-");
            if b < a {
                d.append(num::render(a - b, 100_000_000, 1).as_str());
            } else {
                d = text::copy("+");
                d.append(num::render(b - a, 100_000_000, 1).as_str());
            }
            r.append(d.as_str());
            r.append(" W). Association; repeat to confirm.");
        } else {
            r.append(": battery coverage before ");
            r.append(covered(self.before.seconds).as_str());
            r.append("/60 s, after ");
            r.append(covered(self.after.seconds).as_str());
            r.append("/60 s (15 s settling).");
        }
        r
    }
}

fn covered(seconds: u128) -> (r: String)
    ensures
        r@ == coverage(seconds),
{
    let s: u128 = if seconds < 60_000_000_000 {
        seconds
    } else {
        60_000_000_000
    };
    num::render(s, 1_000_000_000, 0)
}

/// The application that a process belongs to: the outermost application
/// bundle in its path, or its own name.
pub open spec fn group_of(p: ProcRow) -> Seq<char> {
    match p.executable {
        Some(path) => match first_from(path@, ".app/"@, 0) {
            Some(end) => pieces(path@.take(end), '/').last(),
            None => p.name@,
        },
        None => p.name@,
    }
}

pub fn group(p: &ProcRow) -> (r: String)
    ensures
        r@ == group_of(*p),
{
    if let Some(path) = &p.executable {
        let cs = text::chars(path.as_str());
        if let Some(end) = text::find(&cs, ".app/") {
            proof {
                text::first_from_is_least(cs@, ".app/"@, 0);
                assert(cs@.subrange(0, end as int) =~= cs@.take(end as int));
                text::pieces_not_empty(cs@.take(end as int), '/');
            }
            let app = text::piece(&cs, 0, end);
            let names = text::split(&app, '/');
            assert(names@.len() == text::views(names@).len());
            return text::text(&names[names.len() - 1]);
        }
    }
    text::copy(p.name.as_str())
}

/// The battery's discharge in nanowatts, if it runs the machine and says so.
pub open spec fn discharge_of(s: Sample) -> Option<u64> {
    match s.battery {
        Some(b) => if b.external_connected || b.is_charging || b.system_power_mw > 0
            || b.voltage_mv <= 0 {
            None
        } else {
            Some((-b.system_power_mw) as u64)
        },
        None => None,
    }
}

pub fn discharge(sample: &Sample) -> (r: Option<u64>)
    ensures
        r == discharge_of(*sample),
{
    match &sample.battery {
        Some(b) => if b.external_connected || b.is_charging || b.system_power_mw > 0
            || b.voltage_mv <= 0 {
            None
        } else {
            Some((-(b.system_power_mw as i128)) as u64)
        },
        None => None,
    }
}

/// Mean discharge over an interval: both of its ends must be known, and it
/// must be no gap.
pub open spec fn interval_power(previous: Option<Sample>, gap: bool, s: Sample) -> Option<u64> {
    if gap || previous is None {
        None
    } else {
        match (discharge_of(previous->0), discharge_of(s)) {
            (Some(a), Some(b)) => Some(((a + b) / 2) as u64),
            _ => None,
        }
    }
}

/// The energy of an interval in attojoules: the mean of the discharge at both
/// of its ends, times its length.
pub open spec fn interval_energy(previous: Option<Sample>, gap: bool, s: Sample) -> Option<int> {
    if gap || previous is None {
        None
    } else {
        match (discharge_of(previous->0), discharge_of(s)) {
            (Some(a), Some(b)) => Some((a + b) * s.dt_ns / 2),
            _ => None,
        }
    }
}

/// An interval has energy exactly where it has a mean discharge, and the
/// energy is not negative.
pub proof fn energy_comes_with_power(previous: Option<Sample>, gap: bool, s: Sample)
    ensures
        interval_energy(previous, gap, s) is Some == interval_power(previous, gap, s) is Some,
        interval_energy(previous, gap, s) is Some ==> 0 <= interval_energy(previous, gap, s)->0
            <= u128::MAX,
{
    if let Some(p) = previous {
        if let (Some(a), Some(b)) = (discharge_of(p), discharge_of(s)) {
            let sum = a + b;
            let dt = s.dt_ns;
            assert(sum <= 0x1_0000_0000_0000_0000);
            assert(0 <= sum * dt <= 0x1_0000_0000_0000_0000 * 0xffff_ffff_ffff_ffff)
                by (nonlinear_arith)
                requires
                    0 <= sum <= 0x1_0000_0000_0000_0000,
                    0 <= dt <= 0xffff_ffff_ffff_ffff,
            ;
        }
    }
}

pub(crate) fn energy(previous: &Option<Sample>, gap: bool, sample: &Sample) -> (r: Option<u128>)
    ensures
        r is Some == interval_energy(*previous, gap, *sample) is Some,
        r is Some ==> r->0 == interval_energy(*previous, gap, *sample)->0,
{
    if gap {
        return None;
    }
    if let Some(p) = previous {
        if let (Some(a), Some(b)) = (discharge(p), discharge(sample)) {
            let sum: u128 = a as u128 + b as u128;
            let dt: u128 = sample.dt_ns as u128;
            proof {
                assert(0 <= sum * dt <= 0x1_0000_0000_0000_0000 * 0xffff_ffff_ffff_ffff)
                    by (nonlinear_arith)
                    requires
                        0 <= sum <= 0x1_0000_0000_0000_0000,
                        0 <= dt <= 0xffff_ffff_ffff_ffff,
                ;
            }
            return Some(sum * dt / 2);
        }
    }
    None
}

pub(crate) fn mean_power(previous: &Option<Sample>, gap: bool, sample: &Sample) -> (r: Option<u64>)
    ensures
        r == interval_power(*previous, gap, *sample),
{
    if gap {
        return None;
    }
    if let Some(p) = previous {
        if let (Some(a), Some(b)) = (discharge(p), discharge(sample)) {
            return Some(((a as u128 + b as u128) / 2) as u64);
        }
    }
    None
}

/// The machine's own measurement of its power in microwatts.
pub open spec fn system_of(s: Sample) -> Option<u64> {
    match s.thermal {
        Some(t) => match t.pstr_w {
            Some(w) => if w >= 0 {
                Some(w as u64)
            } else {
                None
            },
            None => None,
        },
        None => None,
    }
}

pub(crate) fn system(sample: &Sample) -> (r: Option<u64>)
    ensures
        r == system_of(*sample),
{
    if let Some(t) = &sample.thermal {
        if let Some(w) = t.pstr_w {
            if w >= 0 {
                return Some(w as u64);
            }
        }
    }
    None
}

/// The system window that an interval between two measurements was added to.
pub open spec fn system_widened(
    w: Window,
    previous: Option<Sample>,
    gap: bool,
    s: Sample,
) -> Window {
    if gap || previous is None {
        w
    } else {
        match (system_of(previous->0), system_of(s)) {
            (Some(a), Some(b)) => Window {
                joules: capped(w.joules + (a + b) * 500 * s.dt_ns),
                seconds: capped(w.seconds + s.dt_ns),
            },
            _ => w,
        }
    }
}

pub(crate) fn widen_system(w: &mut Window, previous: &Option<Sample>, gap: bool, sample: &Sample)
    ensures
        *final(w) == system_widened(*old(w), *previous, gap, *sample),
{
    if gap {
        return;
    }
    if let Some(p) = previous {
        if let (Some(a), Some(b)) = (system(p), system(sample)) {
            let power: u128 = (a as u128 + b as u128) * 500;
            w.joules = num::sum_capped(w.joules, num::times_capped(power, sample.dt_ns as u128));
            w.seconds = num::sum_capped(w.seconds, sample.dt_ns as u128);
            proof {
                assert(0 <= power * sample.dt_ns) by (nonlinear_arith)
                    requires
                        power >= 0,
                        sample.dt_ns >= 0,
                ;
                num::capped_sum(old(w).joules as int, power * sample.dt_ns);
            }
        }
    }
}

/// A time is older than the history reaches.
pub open spec fn stale(t: i64, elapsed: i64) -> bool {
    t < elapsed - 300_000_000
}

fn is_stale(t: i64, elapsed: i64) -> (r: bool)
    ensures
        r == stale(t, elapsed),
{
    (t as i128) < elapsed as i128 - 300_000_000
}

/// The history without its stale front.
pub open spec fn pruned(h: Seq<Point>, elapsed: i64) -> Seq<Point>
    decreases h.len(),
{
    if h.len() > 0 && stale(h[0].t, elapsed) {
        pruned(h.skip(1), elapsed)
    } else {
        h
    }
}

/// The system history without its stale front.
pub open spec fn system_pruned(h: Seq<(i64, u64)>, elapsed: i64) -> Seq<(i64, u64)>
    decreases h.len(),
{
    if h.len() > 0 && stale(h[0].0, elapsed) {
        system_pruned(h.skip(1), elapsed)
    } else {
        h
    }
}

pub(crate) fn prune(h: &mut VecDeque<Point>, elapsed: i64)
    ensures
        final(h)@ == pruned(old(h)@, elapsed),
{
    while h.len() > 0 && is_stale(h[0].t, elapsed)
        invariant
            pruned(h@, elapsed) == pruned(old(h)@, elapsed),
        decreases h@.len(),
    {
        let ghost before = h@;
        h.pop_front();
        assert(h@ =~= before.skip(1));
    }
}

pub(crate) fn prune_system(h: &mut VecDeque<(i64, u64)>, elapsed: i64)
    ensures
        final(h)@ == system_pruned(old(h)@, elapsed),
{
    while h.len() > 0 && is_stale(h[0].0, elapsed)
        invariant
            system_pruned(h@, elapsed) == system_pruned(old(h)@, elapsed),
        decreases h@.len(),
    {
        let ghost before = h@;
        h.pop_front();
        assert(h@ =~= before.skip(1));
    }
}

/// The rows whose energy is measured.
pub open spec fn measured(rows: Seq<ProcRow>) -> Seq<ProcRow> {
    rows.filter(|p: ProcRow| p.energy_mw is Some)
}

/// The keys by which rows rank: their measured energy.
pub open spec fn energy_keys(rows: Seq<ProcRow>) -> Seq<Key> {
    rows.map_values(|p: ProcRow| (key_of(p.energy_mw), 0u128))
}

/// A process and its CPU power.
pub open spec fn user_text(p: ProcRow) -> Seq<char> {
    p.name@ + " "@ + fixed(p.energy_mw->0 as nat, 10_000_000, 2) + " CPU W"@
}

/// The three measured processes with the most CPU power.
pub open spec fn top_users(rows: Seq<ProcRow>) -> Seq<Seq<char>> {
    let m = measured(rows);
    let order = ranking(energy_keys(m));
    Seq::new(lesser(order.len() as int, 3) as nat, |i: int| user_text(m[order[i] as int]))
}

/// The indices of the rows whose energy is measured.
pub(crate) fn measured_rows(rows: &Vec<ProcRow>) -> (r: Vec<usize>)
    ensures
        measured(rows@) == r@.map_values(|i: usize| rows@[i as int]),
        forall|k: int| 0 <= k < r@.len() ==> (#[trigger] r@[k]) < rows@.len(),
        forall|k: int| 0 <= k < r@.len() ==> rows@[(#[trigger] r@[k]) as int].energy_mw is Some,
{
    let mut out: Vec<usize> = Vec::new();
    let mut i: usize = 0;
    proof {
        reveal(Seq::filter);
        assert(out@.map_values(|i: usize| rows@[i as int]) =~= measured(rows@.take(0)));
    }
    while i < rows.len()
        invariant
            i <= rows@.len(),
            measured(rows@.take(i as int)) == out@.map_values(|i: usize| rows@[i as int]),
            forall|k: int| 0 <= k < out@.len() ==> (#[trigger] out@[k]) < rows@.len(),
            forall|k: int|
                0 <= k < out@.len() ==> rows@[(#[trigger] out@[k]) as int].energy_mw is Some,
        decreases rows.len() - i,
    {
        proof {
            reveal(Seq::filter);
            assert(rows@.take(i + 1).drop_last() =~= rows@.take(i as int));
        }
        let ghost before = out@;
        if rows[i].energy_mw.is_some() {
            out.push(i);
            assert(out@.map_values(|i: usize| rows@[i as int]) =~= before.map_values(
                |i: usize| rows@[i as int],
            ).push(rows@[i as int]));
        }
        i += 1;
    }
    assert(rows@.take(i as int) =~= rows@);
    out
}

pub(crate) fn peak_users(rows: &Vec<ProcRow>) -> (r: String)
    ensures
        r@ == text::joined(top_users(rows@), ", "@),
{
    let at = measured_rows(rows);
    let ghost m = measured(rows@);
    let mut keys: Vec<Key> = Vec::new();
    let mut i: usize = 0;
    while i < at.len()
        invariant
            i <= at@.len(),
            m == at@.map_values(|i: usize| rows@[i as int]),
            forall|k: int| 0 <= k < at@.len() ==> (#[trigger] at@[k]) < rows@.len(),
            keys@ =~= energy_keys(m).take(i as int),
        decreases at.len() - i,
    {
        keys.push((order::key(rows[at[i]].energy_mw), 0));
        i += 1;
    }
    assert(keys@ =~= energy_keys(m));
    let ranks = order::rank(&keys);
    let mut users: Vec<String> = Vec::new();
    let mut k: usize = 0;
    while k < ranks.len() && k < 3
        invariant
            k <= ranks@.len(),
            k <= 3,
            m == measured(rows@),
            m == at@.map_values(|i: usize| rows@[i as int]),
            forall|k: int| 0 <= k < at@.len() ==> (#[trigger] at@[k]) < rows@.len(),
            forall|k: int|
                0 <= k < at@.len() ==> rows@[(#[trigger] at@[k]) as int].energy_mw is Some,
            ranks@ == ranking(energy_keys(m)),
            forall|k: int| 0 <= k < ranks@.len() ==> (#[trigger] ranks@[k]) < at@.len(),
            text::texts(users@) =~= top_users(rows@).take(k as int),
        decreases ranks.len() - k,
    {
        let p = &rows[at[ranks[k]]];
        let mut u = text::copy(p.name.as_str());
        u.append(" ");
        u.append(
            num::render(
                match p.energy_mw {
                    Some(e) => e as u128,
                    None => 0,
                },
                10_000_000,
                2,
            ).as_str(),
        );
        u.append(" CPU W");
        let ghost before = users@;
        users.push(u);
        proof {
            assert(text::texts(users@) =~= text::texts(before).push(u@));
            assert(u@ == top_users(rows@)[k as int]);
        }
        k += 1;
    }
    assert(text::texts(users@) =~= top_users(rows@));
    text::join(&users, ", ")
}

/// The comparisons that the interval of a point was added to: its part before
/// a change to the window before it, and its part after the latest change to
/// the window after that one.
pub open spec fn compared(cs: Seq<Comparison>, p: Point) -> Seq<Comparison> {
    Seq::new(
        cs.len(),
        |i: int|
            Comparison {
                t: cs[i].t,
                label: cs[i].label,
                before: if p.t > cs[i].t {
                    widened(cs[i].before, p, span_before(cs[i].t).0, span_before(cs[i].t).1)
                } else {
                    cs[i].before
                },
                after: if i == cs.len() - 1 {
                    widened(cs[i].after, p, span_after(cs[i].t).0, span_after(cs[i].t).1)
                } else {
                    cs[i].after
                },
            },
    )
}

pub(crate) fn compare(cs: &mut Vec<Comparison>, p: &Point)
    ensures
        final(cs)@ == compared(old(cs)@, *p),
{
    let n: usize = cs.len();
    let mut i: usize = 0;
    while i < n
        invariant
            i <= n,
            n == old(cs)@.len(),
            cs@.len() == n,
            forall|k: int| 0 <= k < i ==> #[trigger] cs@[k] == compared(old(cs)@, *p)[k],
            forall|k: int| i <= k < n ==> #[trigger] cs@[k] == old(cs)@[k],
        decreases n - i,
    {
        let t: i64 = cs[i].t;
        let at: i128 = t as i128 * 1000;
        let mut before = cs[i].before;
        let mut after = cs[i].after;
        if p.t > t {
            before.add(p, at - 60_000_000_000, at);
        }
        if i == n - 1 {
            after.add(p, at + 15_000_000_000, at + 75_000_000_000);
        }
        cs[i].before = before;
        cs[i].after = after;
        i += 1;
    }
    assert(cs@ =~= compared(old(cs)@, *p));
}

/// The place of the group with a name, or their number.
pub open spec fn place(groups: Seq<ConsumerView>, name: Seq<char>) -> int
    decreases groups.len(),
{
    if groups.len() == 0 || groups[0].name == name {
        0
    } else {
        1 + place(groups.skip(1), name)
    }
}

/// A group without any use.
pub open spec fn fresh(name: Seq<char>) -> ConsumerView {
    ConsumerView {
        name,
        cpu_j: 0,
        cpu_s: 0,
        wakeups: 0,
        disk_bytes: 0,
        samples: 0,
        energy_samples: 0,
    }
}

/// A reading, or zero if it is missing.
pub open spec fn or_zero(n: Option<u64>) -> u64 {
    match n {
        Some(v) => v,
        None => 0,
    }
}

/// A group that one process's use over an interval was added to.
pub open spec fn charged(c: ConsumerView, p: ProcRow, dt: u64) -> ConsumerView {
    ConsumerView {
        name: c.name,
        cpu_j: capped(c.cpu_j + or_zero(p.energy_mw) * dt),
        cpu_s: capped(c.cpu_s + or_zero(p.cpu_percent) * dt),
        wakeups: capped(c.wakeups + or_zero(p.wakeups_per_s) * dt),
        disk_bytes: capped(
            c.disk_bytes + (or_zero(p.disk_read_bps) + or_zero(p.disk_write_bps)) * dt,
        ),
        samples: bumped(c.samples),
        energy_samples: if p.energy_mw is Some {
            bumped(c.energy_samples)
        } else {
            c.energy_samples
        },
    }
}

/// The groups after one row: a row without CPU readings changes nothing.
pub open spec fn with_row(groups: Seq<ConsumerView>, p: ProcRow, dt: u64) -> Seq<ConsumerView> {
    if p.cpu_percent is None && p.energy_mw is None {
        groups
    } else {
        let i = place(groups, group_of(p));
        if i < groups.len() {
            groups.update(i, charged(groups[i], p, dt))
        } else {
            groups.push(charged(fresh(group_of(p)), p, dt))
        }
    }
}

/// The groups after some rows.
pub open spec fn with_rows(
    groups: Seq<ConsumerView>,
    rows: Seq<ProcRow>,
    dt: u64,
) -> Seq<ConsumerView>
    decreases rows.len(),
{
    if rows.len() == 0 {
        groups
    } else {
        with_row(with_rows(groups, rows.drop_last(), dt), rows.last(), dt)
    }
}

/// The views of some groups.
pub open spec fn consumer_views(v: Seq<Consumer>) -> Seq<ConsumerView> {
    v.map_values(|c: Consumer| c@)
}

pub proof fn place_is_first(groups: Seq<ConsumerView>, name: Seq<char>)
    ensures
        0 <= place(groups, name) <= groups.len(),
        place(groups, name) < groups.len() ==> groups[place(groups, name)].name == name,
        forall|i: int| 0 <= i < place(groups, name) ==> (#[trigger] groups[i]).name != name,
    decreases groups.len(),
{
    if groups.len() > 0 && groups[0].name != name {
        place_is_first(groups.skip(1), name);
        assert forall|i: int| 0 <= i < place(groups, name) implies (#[trigger] groups[i]).name
            != name by {
            if i > 0 {
                assert(groups.skip(1)[i - 1] == groups[i]);
            }
        }
    }
}

fn zero(n: Option<u64>) -> (r: u128)
    ensures
        r == or_zero(n),
{
    match n {
        Some(v) => v as u128,
        None => 0,
    }
}

fn more(total: u128, rate: u128, dt: u64) -> (r: u128)
    requires
        rate <= 0x1_ffff_ffff_ffff_ffff,
    ensures
        r == capped(total + rate * dt),
{
    proof {
        assert(0 <= rate * dt) by (nonlinear_arith)
            requires
                rate >= 0,
                dt >= 0,
        ;
        num::capped_sum(total as int, rate * dt);
    }
    num::sum_capped(total, num::times_capped(rate, dt as u128))
}

fn charge(groups: &mut Vec<Consumer>, p: &ProcRow, dt: u64)
    ensures
        consumer_views(final(groups)@) == with_row(consumer_views(old(groups)@), *p, dt),
{
    if p.cpu_percent.is_none() && p.energy_mw.is_none() {
        return;
    }
    let name = group(p);
    let wanted = text::chars(name.as_str());
    let ghost all = consumer_views(groups@);
    let mut i: usize = 0;
    while i < groups.len() && !text::same(&wanted, groups[i].name.as_str())
        invariant
            i <= groups@.len(),
            wanted@ == name@,
            all == consumer_views(groups@),
            forall|k: int| 0 <= k < i ==> (#[trigger] all[k]).name != name@,
        decreases groups.len() - i,
    {
        i += 1;
    }
    proof {
        place_is_first(all, name@);
        if i < groups@.len() {
            assert(all[i as int].name == name@);
        }
        assert(place(all, name@) == i);
    }
    if i == groups.len() {
        groups.push(
            Consumer {
                name,
                cpu_j: 0,
                cpu_s: 0,
                wakeups: 0,
                disk_bytes: 0,
                samples: 0,
                energy_samples: 0,
            },
        );
    }
    let ghost start = groups@[i as int]@;
    let ghost middle = groups@;
    let cpu_j: u128 = more(groups[i].cpu_j, zero(p.energy_mw), dt);
    let cpu_s: u128 = more(groups[i].cpu_s, zero(p.cpu_percent), dt);
    let wakeups: u128 = more(groups[i].wakeups, zero(p.wakeups_per_s), dt);
    let disk_bytes: u128 = more(
        groups[i].disk_bytes,
        zero(p.disk_read_bps) + zero(p.disk_write_bps),
        dt,
    );
    let samples: u64 = bump(groups[i].samples);
    let energy_samples: u64 = if p.energy_mw.is_some() {
        bump(groups[i].energy_samples)
    } else {
        groups[i].energy_samples
    };
    groups[i].cpu_j = cpu_j;
    groups[i].cpu_s = cpu_s;
    groups[i].wakeups = wakeups;
    groups[i].disk_bytes = disk_bytes;
    groups[i].samples = samples;
    groups[i].energy_samples = energy_samples;
    proof {
        assert(groups@[i as int]@ == charged(start, *p, dt));
        assert(start == if i < all.len() {
            all[i as int]
        } else {
            fresh(name@)
        });
        let out = consumer_views(groups@);
        let want = with_row(all, *p, dt);
        assert(out.len() == want.len());
        assert forall|k: int| 0 <= k < out.len() implies out[k] == want[k] by {
            if k != i {
                assert(groups@[k] == middle[k]);
                assert(out[k] == all[k]);
            }
        }
        assert(out =~= want);
    }
}

pub(crate) fn charge_all(groups: &mut Vec<Consumer>, rows: &Vec<ProcRow>, dt: u64)
    ensures
        consumer_views(final(groups)@) == with_rows(consumer_views(old(groups)@), rows@, dt),
{
    let mut i: usize = 0;
    assert(rows@.take(0) =~= seq![]);
    while i < rows.len()
        invariant
            i <= rows@.len(),
            consumer_views(groups@) == with_rows(
                consumer_views(old(groups)@),
                rows@.take(i as int),
                dt,
            ),
        decreases rows.len() - i,
    {
        charge(groups, &rows[i], dt);
        assert(rows@.take(i + 1).drop_last() =~= rows@.take(i as int));
        i += 1;
    }
    assert(rows@.take(i as int) =~= rows@);
}

/// The place of the inspection of a process, or their number.
pub open spec fn seat(vms: Seq<Inspection>, pid: i32) -> int
    decreases vms.len(),
{
    if vms.len() == 0 || vms[0].pid == pid {
        0
    } else {
        1 + seat(vms.skip(1), pid)
    }
}

/// The inspections with the latest one of a process.
pub open spec fn with_inspection(vms: Seq<Inspection>, v: Inspection) -> Seq<Inspection> {
    let i = seat(vms, v.pid);
    if i < vms.len() {
        vms.update(i, v)
    } else {
        vms.push(v)
    }
}

pub proof fn seat_is_first(vms: Seq<Inspection>, pid: i32)
    ensures
        0 <= seat(vms, pid) <= vms.len(),
        seat(vms, pid) < vms.len() ==> vms[seat(vms, pid)].pid == pid,
        forall|i: int| 0 <= i < seat(vms, pid) ==> (#[trigger] vms[i]).pid != pid,
    decreases vms.len(),
{
    if vms.len() > 0 && vms[0].pid != pid {
        seat_is_first(vms.skip(1), pid);
        assert forall|i: int| 0 <= i < seat(vms, pid) implies (#[trigger] vms[i]).pid != pid by {
            if i > 0 {
                assert(vms.skip(1)[i - 1] == vms[i]);
            }
        }
    }
}

pub(crate) fn keep(vms: &mut Vec<Inspection>, v: Inspection)
    ensures
        final(vms)@ == with_inspection(old(vms)@, v),
{
    let mut i: usize = 0;
    while i < vms.len() && vms[i].pid != v.pid
        invariant
            i <= vms@.len(),
            vms@ == old(vms)@,
            forall|k: int| 0 <= k < i ==> (#[trigger] vms@[k]).pid != v.pid,
        decreases vms.len() - i,
    {
        i += 1;
    }
    proof {
        seat_is_first(vms@, v.pid);
    }
    if i < vms.len() {
        vms[i] = v;
    } else {
        vms.push(v);
    }
}

} // verus!
