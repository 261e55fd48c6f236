//! What a recording comes to, one event after the other.

use crate::analysis::{
    self, bumped, compared, consumer_views, interval_energy, interval_power, measured, pruned,
    span_before, system_of, system_pruned, system_widened, top_users, window_over, with_inspection,
    with_rows, Comparison, Consumer, ConsumerView, Point, Window,
};
use crate::inspection::Inspection;
use crate::num::{self, capped};
use crate::order::{self, ranking, Key};
use crate::record::Record;
use crate::text;
use crate::types::Sample;
use std::collections::VecDeque;
use vstd::prelude::*;
use vstd::string::*;

verus! {

/// Everything that a recording has shown so far.
pub struct Ledger {
    pub elapsed: i64,
    /// Battery energy in attojoules, over observed intervals alone.
    pub battery_j: u128,
    /// The observed intervals in nanoseconds.
    pub battery_seconds: u128,
    pub gaps: u64,
    /// The greatest mean discharge of an interval, in nanowatts.
    pub peak_w: u64,
    pub peak_at: i64,
    pub peak_consumers: String,
    /// One per name, in the order in which the names first appeared.
    pub groups: Vec<Consumer>,
    pub history: VecDeque<Point>,
    /// System power in microwatts.
    pub system_history: VecDeque<(i64, u64)>,
    pub system_energy: Window,
    pub comparisons: Vec<Comparison>,
    pub latest: Option<Sample>,
    pub assertions: String,
    pub notices: Vec<String>,
    pub sampler_ms: u64,
    pub measured_procs: usize,
    pub total_procs: usize,
    pub recorder_pid: u32,
    pub samples: u64,
    pub ended: bool,
    /// The latest inspection of each virtual machine, one per process.
    pub vms: Vec<Inspection>,
}

/// `Ledger` with its collections and texts as sequences.
pub ghost struct LedgerView {
    pub elapsed: i64,
    pub battery_j: u128,
    pub battery_seconds: u128,
    pub gaps: u64,
    pub peak_w: u64,
    pub peak_at: i64,
    pub peak_consumers: Seq<char>,
    pub groups: Seq<ConsumerView>,
    pub history: Seq<Point>,
    pub system_history: Seq<(i64, u64)>,
    pub system_energy: Window,
    pub comparisons: Seq<Comparison>,
    pub latest: Option<Sample>,
    pub assertions: Seq<char>,
    pub notices: Seq<String>,
    pub sampler_ms: u64,
    pub measured_procs: usize,
    pub total_procs: usize,
    pub recorder_pid: u32,
    pub samples: u64,
    pub ended: bool,
    pub vms: Seq<Inspection>,
}

impl View for Ledger {
    type V = LedgerView;

    open spec fn view(&self) -> LedgerView {
        LedgerView {
            elapsed: self.elapsed,
            battery_j: self.battery_j,
            battery_seconds: self.battery_seconds,
            gaps: self.gaps,
            peak_w: self.peak_w,
            peak_at: self.peak_at,
            peak_consumers: self.peak_consumers@,
            groups: consumer_views(self.groups@),
            history: self.history@,
            system_history: self.system_history@,
            system_energy: self.system_energy,
            comparisons: self.comparisons@,
            latest: self.latest,
            assertions: self.assertions@,
            notices: self.notices@,
            sampler_ms: self.sampler_ms,
            measured_procs: self.measured_procs,
            total_procs: self.total_procs,
            recorder_pid: self.recorder_pid,
            samples: self.samples,
            ended: self.ended,
            vms: self.vms@,
        }
    }
}

/// The ledger before any event.
pub open spec fn blank() -> LedgerView {
    LedgerView {
        elapsed: 0,
        battery_j: 0,
        battery_seconds: 0,
        gaps: 0,
        peak_w: 0,
        peak_at: 0,
        peak_consumers: seq![],
        groups: seq![],
        history: seq![],
        system_history: seq![],
        system_energy: Window { joules: 0, seconds: 0 },
        comparisons: seq![],
        latest: None,
        assertions: seq![],
        notices: seq![],
        sampler_ms: 0,
        measured_procs: 0,
        total_procs: 0,
        recorder_pid: 0,
        samples: 0,
        ended: false,
        vms: seq![],
    }
}

/// The interval that a sample ends.
pub open spec fn point_of(l: LedgerView, elapsed_s: i64, gap: bool, s: Sample) -> Point {
    Point { t: elapsed_s, dt: s.dt_ns, w: interval_power(l.latest, gap, s) }
}

/// The ledger after a sample.
pub open spec fn sampled(
    l: LedgerView,
    elapsed_s: i64,
    gap: bool,
    sampler_ms: u64,
    s: Sample,
) -> LedgerView {
    let point = point_of(l, elapsed_s, gap, s);
    let peak = point.w is Some && point.w->0 > l.peak_w;
    LedgerView {
        elapsed: elapsed_s,
        battery_j: match interval_energy(l.latest, gap, s) {
            Some(e) => capped(l.battery_j + e),
            None => l.battery_j,
        },
        battery_seconds: match point.w {
            Some(w) => capped(l.battery_seconds + s.dt_ns),
            None => l.battery_seconds,
        },
        gaps: if gap {
            bumped(l.gaps)
        } else {
            l.gaps
        },
        peak_w: if peak {
            point.w->0
        } else {
            l.peak_w
        },
        peak_at: if peak {
            elapsed_s
        } else {
            l.peak_at
        },
        peak_consumers: if peak {
            text::joined(top_users(s.procs@), ", "@)
        } else {
            l.peak_consumers
        },
        groups: if gap {
            l.groups
        } else {
            with_rows(l.groups, s.procs@, s.dt_ns)
        },
        history: pruned(l.history.push(point), elapsed_s),
        system_history: system_pruned(
            if !gap && system_of(s) is Some {
                l.system_history.push((elapsed_s, system_of(s)->0))
            } else {
                l.system_history
            },
            elapsed_s,
        ),
        system_energy: system_widened(l.system_energy, l.latest, gap, s),
        comparisons: compared(l.comparisons, point),
        latest: Some(s),
        sampler_ms,
        measured_procs: measured(s.procs@).len() as usize,
        total_procs: s.procs@.len() as usize,
        samples: bumped(l.samples),
        ..l
    }
}

/// The comparison that a change starts.
pub open spec fn marked(l: LedgerView, t: i64, label: String) -> Comparison {
    Comparison {
        t,
        label,
        before: window_over(l.history, span_before(t).0, span_before(t).1),
        after: Window { joules: 0, seconds: 0 },
    }
}

/// The ledger after an event.
pub open spec fn applied(l: LedgerView, record: Record) -> LedgerView {
    match record {
        Record::Session { recorder_pid, .. } => LedgerView { recorder_pid, ..l },
        Record::Notice { message, .. } => LedgerView { notices: l.notices.push(message), ..l },
        Record::Context { assertions, .. } => LedgerView { assertions: assertions@, ..l },
        Record::End { .. } => LedgerView { ended: true, ..l },
        Record::Vm { inspection, .. } => LedgerView {
            vms: with_inspection(l.vms, *inspection),
            ..l
        },
        Record::Marker { elapsed_s, label, .. } => LedgerView {
            comparisons: l.comparisons.push(marked(l, elapsed_s, label)),
            ..l
        },
        Record::Sample { elapsed_s, gap, sampler_ms, sample, .. } => sampled(
            l,
            elapsed_s,
            gap,
            sampler_ms,
            *sample,
        ),
    }
}

/// The ledger after some events.
pub open spec fn replayed(l: LedgerView, records: Seq<Record>) -> LedgerView
    decreases records.len(),
{
    if records.len() == 0 {
        l
    } else {
        applied(replayed(l, records.drop_last()), records.last())
    }
}

fn window(points: &VecDeque<Point>, from: i128, to: i128) -> (r: Window)
    ensures
        r == window_over(points@, from as int, to as int),
{
    let mut w = Window::empty();
    let mut i: usize = 0;
    assert(points@.take(0) =~= seq![]);
    while i < points.len()
        invariant
            i <= points@.len(),
            w == window_over(points@.take(i as int), from as int, to as int),
        decreases points.len() - i,
    {
        w.add(&points[i], from, to);
        assert(points@.take(i + 1).drop_last() =~= points@.take(i as int));
        i += 1;
    }
    assert(points@.take(i as int) =~= points@);
    w
}

impl Default for Ledger {
    fn default() -> (r: Ledger)
        ensures
            r@ == blank(),
    {
        let r = Ledger {
            elapsed: 0,
            battery_j: 0,
            battery_seconds: 0,
            gaps: 0,
            peak_w: 0,
            peak_at: 0,
            peak_consumers: String::new(),
            groups: Vec::new(),
            history: VecDeque::new(),
            system_history: VecDeque::new(),
            system_energy: Window::empty(),
            comparisons: Vec::new(),
            latest: None,
            assertions: String::new(),
            notices: Vec::new(),
            sampler_ms: 0,
            measured_procs: 0,
            total_procs: 0,
            recorder_pid: 0,
            samples: 0,
            ended: false,
            vms: Vec::new(),
        };
        proof {
            assert(consumer_views(r.groups@) =~= seq![]);
            assert(r@.peak_consumers =~= seq![]);
            assert(r@.assertions =~= seq![]);
            assert(r@.history =~= seq![]);
            assert(r@.system_history =~= seq![]);
        }
        r
    }
}

impl Ledger {
    /// Accounts for one event of the recording.
    pub fn apply(&mut self, record: Record)
        ensures
            final(self)@ == applied(old(self)@, record),
    {
        match record {
            Record::Session { recorder_pid, .. } => {
                self.recorder_pid = recorder_pid;
            },
            Record::Notice { message, .. } => {
                self.notices.push(message);
            },
            Record::Context { assertions, .. } => {
                self.assertions = assertions;
            },
            Record::End { .. } => {
                self.ended = true;
            },
            Record::Vm { inspection, .. } => {
                analysis::keep(&mut self.vms, *inspection);
            },
            Record::Marker { elapsed_s, label, .. } => {
                let at: i128 = elapsed_s as i128 * 1000;
                let before = window(&self.history, at - 60_000_000_000, at);
                // A change closes the window after the change before it.
                self.comparisons.push(
                    Comparison { t: elapsed_s, label, before, after: Window::empty() },
                );
            },
            Record::Sample { elapsed_s, gap, sampler_ms, sample, .. } => {
                self.sample(elapsed_s, gap, sampler_ms, *sample);
            },
        }
    }

    fn sample(&mut self, elapsed_s: i64, gap: bool, sampler_ms: u64, sample: Sample)
        ensures
            final(self)@ == sampled(old(self)@, elapsed_s, gap, sampler_ms, sample),
    {
        let dt: u64 = sample.dt_ns;
        let w = analysis::mean_power(&self.latest, gap, &sample);
        let energy = analysis::energy(&self.latest, gap, &sample);
        let point = Point { t: elapsed_s, dt, w };
        self.samples = analysis::bump(self.samples);
        self.elapsed = elapsed_s;
        self.sampler_ms = sampler_ms;
        analysis::widen_system(&mut self.system_energy, &self.latest, gap, &sample);
        if !gap {
            if let Some(power) = analysis::system(&sample) {
                self.system_history.push_back((elapsed_s, power));
            }
        }
        analysis::prune_system(&mut self.system_history, elapsed_s);
        if gap {
            self.gaps = analysis::bump(self.gaps);
        }
        if let Some(e) = energy {
            self.battery_j = num::sum_capped(self.battery_j, e);
        }
        if let Some(power) = w {
            self.battery_seconds = num::sum_capped(self.battery_seconds, dt as u128);
            if power > self.peak_w {
                self.peak_w = power;
                self.peak_at = elapsed_s;
                self.peak_consumers = analysis::peak_users(&sample.procs);
            }
        }
        analysis::compare(&mut self.comparisons, &point);
        self.history.push_back(point);
        analysis::prune(&mut self.history, elapsed_s);
        let with_energy = analysis::measured_rows(&sample.procs);
        assert(measured(sample.procs@).len() == with_energy@.len());
        self.total_procs = sample.procs.len();
        self.measured_procs = with_energy.len();
        if !gap {
            analysis::charge_all(&mut self.groups, &sample.procs, dt);
        }
        self.latest = Some(sample);
    }

    /// The groups by CPU energy, then by CPU time, the greatest first.
    pub open spec fn order(self) -> Seq<usize> {
        ranking(consumer_keys(self@.groups))
    }

    /// The rows are the groups in that order.
    pub open spec fn is_ranked(self, rows: Seq<&Consumer>) -> bool {
        &&& rows.len() == self.groups@.len()
        &&& self.order().len() == self.groups@.len()
        &&& forall|i: int|
            0 <= i < rows.len() ==> self.order()[i] < self.groups@.len() && #[trigger] rows[i]
                == &self.groups@[self.order()[i] as int]
    }

    pub fn ranked(&self) -> (r: Vec<&Consumer>)
        ensures
            self.is_ranked(r@),
    {
        let mut keys: Vec<Key> = Vec::new();
        let mut i: usize = 0;
        while i < self.groups.len()
            invariant
                i <= self.groups@.len(),
                keys@ =~= consumer_keys(self@.groups).take(i as int),
            decreases self.groups.len() - i,
        {
            keys.push((self.groups[i].cpu_j, self.groups[i].cpu_s));
            i += 1;
        }
        assert(keys@ =~= consumer_keys(self@.groups));
        let ranks = order::rank(&keys);
        let mut out: Vec<&Consumer> = Vec::new();
        let mut k: usize = 0;
        while k < ranks.len()
            invariant
                k <= ranks@.len(),
                ranks@ == self.order(),
                ranks@.len() == self.groups@.len(),
                forall|p: int|
                    0 <= p < ranks@.len() ==> (#[trigger] ranks@[p]) < self.groups@.len(),
                out@.len() == k,
                forall|i: int|
                    0 <= i < k ==> self.order()[i] < self.groups@.len() && #[trigger] out@[i]
                        == &self.groups@[self.order()[i] as int],
            decreases ranks.len() - k,
        {
            out.push(&self.groups[ranks[k]]);
            k += 1;
        }
        out
    }

    /// Mean discharge over the last minute, in nanowatts.
    pub fn rolling_w(&self) -> (r: Option<u128>)
        ensures
            r == rolling_of(self@),
    {
        let to: i128 = self.elapsed as i128 * 1000;
        window(&self.history, to - 60_000_000_000, to).mean()
    }
}

/// Mean discharge over the minute before the latest sample.
pub open spec fn rolling_of(l: LedgerView) -> Option<u128> {
    window_over(l.history, span_before(l.elapsed).0, span_before(l.elapsed).1).mean_of()
}

/// The keys by which groups rank.
pub open spec fn consumer_keys(groups: Seq<ConsumerView>) -> Seq<Key> {
    groups.map_values(|c: ConsumerView| (c.cpu_j, c.cpu_s))
}

} // verus!
