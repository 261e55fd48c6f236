//! What holds of every ledger, whatever it accounts for.

use crate::analysis::{
    discharge_of, energy_comes_with_power, energy_keys, greater, group_of, interval_energy,
    interval_power, lesser, measured, nanos, or_zero, overlap, place, place_is_first, pruned, seat,
    seat_is_first, span_after, span_before, stale, top_users, user_text, widened, window_over,
    with_inspection, with_row, with_rows, Comparison, ConsumerView, Point, Window, SECOND,
};
use crate::gzip::is_member;
use crate::inspection::Inspection;
use crate::ledger::{applied, blank, point_of, replayed, sampled, LedgerView};
use crate::num::{capped, capped_sum};
use crate::order::{is_stable_ranking, key_of, precedes, ranking, ranking_is_stable};
use crate::record::{
    accepted, events, is_line, is_sound, line_texts, partial_endings_are_passed_over, recording_in,
    run, written_events_are_read_back, EndingView, Record,
};
use crate::text;
use crate::types::{ProcRow, Sample};
use vstd::prelude::*;

verus! {

/// An interval adds nothing to the battery totals, and is no peak, if it is a
/// gap or if the discharge is unknown at one of its ends: on external power,
/// while charging, or without a reading.
pub proof fn unobserved_intervals_add_nothing(
    l: LedgerView,
    elapsed_s: i64,
    gap: bool,
    sampler_ms: u64,
    s: Sample,
)
    requires
        gap || discharge_of(s) is None || l.latest is None || discharge_of(l.latest->0) is None,
    ensures
        ({
            let r = sampled(l, elapsed_s, gap, sampler_ms, s);
            &&& r.battery_j == l.battery_j
            &&& r.battery_seconds == l.battery_seconds
            &&& r.peak_w == l.peak_w
            &&& r.peak_at == l.peak_at
            &&& r.peak_consumers == l.peak_consumers
            &&& forall|i: int|
                0 <= i < l.comparisons.len() ==> (#[trigger] r.comparisons[i])
                    == l.comparisons[i]
        }),
{
    let r = sampled(l, elapsed_s, gap, sampler_ms, s);
    assert forall|i: int| 0 <= i < l.comparisons.len() implies (#[trigger] r.comparisons[i])
        == l.comparisons[i] by {
        assert(point_of(l, elapsed_s, gap, s).w is None);
    }
}

/// A gap charges no group of processes and is counted.
pub proof fn gaps_charge_nobody(l: LedgerView, elapsed_s: i64, sampler_ms: u64, s: Sample)
    requires
        l.gaps < u64::MAX,
    ensures
        sampled(l, elapsed_s, true, sampler_ms, s).groups == l.groups,
        sampled(l, elapsed_s, true, sampler_ms, s).gaps == l.gaps + 1,
        sampled(l, elapsed_s, true, sampler_ms, s).system_energy == l.system_energy,
{
}

/// The last sample among some events.
pub open spec fn last_sample(records: Seq<Record>) -> Option<Sample>
    decreases records.len(),
{
    if records.len() == 0 {
        None
    } else {
        match records.last() {
            Record::Sample { sample, .. } => Some(*sample),
            _ => last_sample(records.drop_last()),
        }
    }
}

/// The energy of the observed intervals: the mean of the discharge at both
/// ends of each, times its length.
pub open spec fn observed_energy(records: Seq<Record>) -> int
    decreases records.len(),
{
    if records.len() == 0 {
        0
    } else {
        let before = records.drop_last();
        observed_energy(before) + match records.last() {
            Record::Sample { gap, sample, .. } => match interval_energy(
                last_sample(before),
                gap,
                *sample,
            ) {
                Some(e) => e,
                None => 0,
            },
            _ => 0,
        }
    }
}

/// The length of the observed intervals.
pub open spec fn observed_time(records: Seq<Record>) -> int
    decreases records.len(),
{
    if records.len() == 0 {
        0
    } else {
        let before = records.drop_last();
        observed_time(before) + match records.last() {
            Record::Sample { gap, sample, .. } => match interval_power(
                last_sample(before),
                gap,
                *sample,
            ) {
                Some(_) => sample.dt_ns as int,
                None => 0,
            },
            _ => 0,
        }
    }
}

/// The battery total of a recording is the trapezoid integral of the
/// discharge over its observed intervals, and its time is their length.
pub proof fn battery_total_is_the_integral(records: Seq<Record>)
    ensures
        observed_energy(records) >= 0,
        observed_time(records) >= 0,
        replayed(blank(), records).latest == last_sample(records),
        replayed(blank(), records).battery_j == capped(observed_energy(records)),
        replayed(blank(), records).battery_seconds == capped(observed_time(records)),
    decreases records.len(),
{
    if records.len() > 0 {
        let before = records.drop_last();
        battery_total_is_the_integral(before);
        if let Record::Sample { gap, sample, .. } = records.last() {
            energy_comes_with_power(last_sample(before), gap, *sample);
            if let Some(e) = interval_energy(last_sample(before), gap, *sample) {
                capped_sum(observed_energy(before), e);
                capped_sum(observed_time(before), sample.dt_ns as int);
            }
        }
    }
}

/// A recording gives the same ledger whether it is read in one piece or in
/// two.
pub proof fn replay_goes_on_where_it_stopped(l: LedgerView, first: Seq<Record>, more: Seq<Record>)
    ensures
        replayed(l, first + more) == replayed(replayed(l, first), more),
    decreases more.len(),
{
    if more.len() == 0 {
        assert(first + more =~= first);
    } else {
        assert((first + more).drop_last() =~= first + more.drop_last());
        replay_goes_on_where_it_stopped(l, first, more.drop_last());
    }
}

/// Two lists of processes that differ in lifetime counters alone.
pub open spec fn alike_but_for_lifetime(a: Seq<ProcRow>, b: Seq<ProcRow>) -> bool {
    &&& a.len() == b.len()
    &&& forall|i: int|
        0 <= i < a.len() ==> (#[trigger] b[i]) == (ProcRow {
            lifetime_energy_j: b[i].lifetime_energy_j,
            ..a[i]
        })
}

proof fn lifetime_is_no_use(groups: Seq<ConsumerView>, a: Seq<ProcRow>, b: Seq<ProcRow>, dt: u64)
    requires
        alike_but_for_lifetime(a, b),
    ensures
        with_rows(groups, a, dt) == with_rows(groups, b, dt),
        alike_but_for_lifetime(measured(a), measured(b)),
        measured(a).len() <= a.len(),
    decreases a.len(),
{
    reveal(Seq::filter);
    if a.len() > 0 {
        lifetime_is_no_use(groups, a.drop_last(), b.drop_last(), dt);
        assert(b[a.len() - 1] == b.last());
    }
}

proof fn lifetime_does_not_rank(a: Seq<ProcRow>, b: Seq<ProcRow>)
    requires
        alike_but_for_lifetime(measured(a), measured(b)),
        measured(a).len() <= usize::MAX,
    ensures
        top_users(a) == top_users(b),
{
    let m = measured(a);
    let n = measured(b);
    assert(energy_keys(m) =~= energy_keys(n)) by {
        assert forall|i: int| 0 <= i < m.len() implies energy_keys(m)[i] == energy_keys(n)[i] by {
            assert(n[i].energy_mw == m[i].energy_mw);
        }
    }
    let order = ranking(energy_keys(m));
    ranking_is_stable(energy_keys(m));
    assert forall|i: int| 0 <= i < lesser(order.len() as int, 3) implies top_users(a)[i]
        == top_users(b)[i] by {
        let k = order[i] as int;
        assert(n[k] == (ProcRow { lifetime_energy_j: n[k].lifetime_energy_j, ..m[k] }));
    }
    assert(top_users(a) =~= top_users(b));
}

/// What a process used before the recording, or in its whole life, counts
/// nowhere: lifetime counters change no total, no rank and no comparison.
pub proof fn lifetime_counters_do_not_count(
    l: LedgerView,
    elapsed_s: i64,
    gap: bool,
    sampler_ms: u64,
    s: Sample,
    other: Sample,
)
    requires
        other == (Sample { procs: other.procs, ..s }),
        alike_but_for_lifetime(s.procs@, other.procs@),
    ensures
        sampled(l, elapsed_s, gap, sampler_ms, other) == (LedgerView {
            latest: Some(other),
            ..sampled(l, elapsed_s, gap, sampler_ms, s)
        }),
{
    lifetime_is_no_use(l.groups, s.procs@, other.procs@, s.dt_ns);
    assert(s.procs.len() == s.procs@.len());
    lifetime_does_not_rank(s.procs@, other.procs@);
}

/// `b` holds at least what `a` holds, under the same name.
pub open spec fn holds_at_least(b: ConsumerView, a: ConsumerView) -> bool {
    &&& b.name == a.name
    &&& b.cpu_j >= a.cpu_j
    &&& b.cpu_s >= a.cpu_s
    &&& b.wakeups >= a.wakeups
    &&& b.disk_bytes >= a.disk_bytes
    &&& b.samples >= a.samples
    &&& b.energy_samples >= a.energy_samples
}

proof fn a_row_takes_nothing_away(groups: Seq<ConsumerView>, p: ProcRow, dt: u64)
    ensures
        groups.len() <= with_row(groups, p, dt).len(),
        forall|i: int|
            0 <= i < groups.len() ==> holds_at_least(
                #[trigger] with_row(groups, p, dt)[i],
                groups[i],
            ),
{
    place_is_first(groups, group_of(p));
    let e = or_zero(p.energy_mw);
    let c = or_zero(p.cpu_percent);
    let k = or_zero(p.wakeups_per_s);
    let d = or_zero(p.disk_read_bps) + or_zero(p.disk_write_bps);
    assert(e * dt >= 0 && c * dt >= 0 && k * dt >= 0 && d * dt >= 0) by (nonlinear_arith)
        requires
            e >= 0,
            c >= 0,
            k >= 0,
            d >= 0,
            dt >= 0,
    ;
}

proof fn rows_take_nothing_away(groups: Seq<ConsumerView>, rows: Seq<ProcRow>, dt: u64)
    ensures
        groups.len() <= with_rows(groups, rows, dt).len(),
        forall|i: int|
            0 <= i < groups.len() ==> holds_at_least(
                #[trigger] with_rows(groups, rows, dt)[i],
                groups[i],
            ),
    decreases rows.len(),
{
    if rows.len() > 0 {
        let middle = with_rows(groups, rows.drop_last(), dt);
        rows_take_nothing_away(groups, rows.drop_last(), dt);
        a_row_takes_nothing_away(middle, rows.last(), dt);
        assert forall|i: int| 0 <= i < groups.len() implies holds_at_least(
            #[trigger] with_rows(groups, rows, dt)[i],
            groups[i],
        ) by {
            assert(holds_at_least(with_row(middle, rows.last(), dt)[i], middle[i]));
            assert(holds_at_least(middle[i], groups[i]));
        }
    }
}

/// What a group used stays in the ledger: no event takes a group away or
/// makes a total smaller, so a process that exits is still accounted for.
pub proof fn use_is_never_lost(l: LedgerView, record: Record)
    ensures
        l.groups.len() <= applied(l, record).groups.len(),
        forall|i: int|
            0 <= i < l.groups.len() ==> holds_at_least(
                #[trigger] applied(l, record).groups[i],
                l.groups[i],
            ),
        l.battery_j <= applied(l, record).battery_j,
        l.battery_seconds <= applied(l, record).battery_seconds,
        l.peak_w <= applied(l, record).peak_w,
{
    if let Record::Sample { gap, sample, elapsed_s, sampler_ms, .. } = record {
        rows_take_nothing_away(l.groups, sample.procs@, sample.dt_ns);
        energy_comes_with_power(l.latest, gap, *sample);
    }
}

/// No two groups have the same name.
pub open spec fn names_apart(groups: Seq<ConsumerView>) -> bool {
    forall|i: int, j: int|
        0 <= i < j < groups.len() ==> (#[trigger] groups[i]).name != (#[trigger] groups[j]).name
}

/// No two inspections are of the same process.
pub open spec fn machines_apart(vms: Seq<Inspection>) -> bool {
    forall|i: int, j: int|
        0 <= i < j < vms.len() ==> (#[trigger] vms[i]).pid != (#[trigger] vms[j]).pid
}

proof fn rows_keep_names_apart(groups: Seq<ConsumerView>, rows: Seq<ProcRow>, dt: u64)
    requires
        names_apart(groups),
    ensures
        names_apart(with_rows(groups, rows, dt)),
    decreases rows.len(),
{
    if rows.len() > 0 {
        rows_keep_names_apart(groups, rows.drop_last(), dt);
        place_is_first(with_rows(groups, rows.drop_last(), dt), group_of(rows.last()));
    }
}

/// The ledger keeps one group per name and one inspection per process.
pub proof fn each_name_and_machine_is_kept_once(l: LedgerView, record: Record)
    requires
        names_apart(l.groups),
        machines_apart(l.vms),
    ensures
        names_apart(applied(l, record).groups),
        machines_apart(applied(l, record).vms),
        names_apart(blank().groups),
        machines_apart(blank().vms),
{
    if let Record::Sample { sample, .. } = record {
        rows_keep_names_apart(l.groups, sample.procs@, sample.dt_ns);
    }
    if let Record::Vm { inspection, .. } = record {
        seat_is_first(l.vms, inspection.pid);
    }
}

/// The latest inspection of a process takes the place of the one before, and
/// those of other processes stay.
pub proof fn the_latest_inspection_stays(l: LedgerView, elapsed_s: i64, v: Inspection)
    requires
        machines_apart(l.vms),
    ensures
        ({
            let vms = applied(l, Record::Vm { elapsed_s, inspection: Box::new(v) }).vms;
            &&& vms.contains(v)
            &&& forall|o: Inspection| o.pid == v.pid && #[trigger] vms.contains(o) ==> o == v
            &&& forall|o: Inspection|
                o.pid != v.pid ==> #[trigger] vms.contains(o) == l.vms.contains(o)
        }),
{
    seat_is_first(l.vms, v.pid);
    let i = seat(l.vms, v.pid);
    let vms = with_inspection(l.vms, v);
    assert(vms[i] == v);
    assert forall|o: Inspection| o.pid != v.pid implies #[trigger] vms.contains(o)
        == l.vms.contains(o) by {
        if l.vms.contains(o) {
            let k = choose|k: int| 0 <= k < l.vms.len() && l.vms[k] == o;
            assert(vms[k] == o);
        }
    }
}

/// Once another change is marked, no event alters the window after an earlier
/// one: two interventions are never mixed.
pub proof fn a_change_closes_the_window_before_it(l: LedgerView, record: Record, i: int)
    requires
        0 <= i < l.comparisons.len() - 1,
    ensures
        applied(l, record).comparisons.len() >= l.comparisons.len(),
        applied(l, record).comparisons[i].t == l.comparisons[i].t,
        applied(l, record).comparisons[i].label == l.comparisons[i].label,
        applied(l, record).comparisons[i].after == l.comparisons[i].after,
{
}

/// An interval that ends before a change has settled adds nothing to the
/// window after it, and one that starts after the change adds nothing to the
/// window before it.
pub proof fn windows_wait_for_settling(c: Comparison, p: Point)
    ensures
        nanos(p.t) <= nanos(c.t) + 15 * SECOND ==> widened(
            c.after,
            p,
            span_after(c.t).0,
            span_after(c.t).1,
        ) == c.after,
        nanos(p.t) - p.dt >= nanos(c.t) ==> widened(
            c.before,
            p,
            span_before(c.t).0,
            span_before(c.t).1,
        ) == c.before,
{
    if let Some(w) = p.w {
        assert(w * 0 == 0) by (nonlinear_arith);
        if nanos(p.t) <= nanos(c.t) + 15 * SECOND {
            assert(overlap(p, span_after(c.t).0, span_after(c.t).1) == 0);
        }
        if nanos(p.t) - p.dt >= nanos(c.t) {
            assert(overlap(p, span_before(c.t).0, span_before(c.t).1) == 0);
        }
    }
}

/// Each interval starts where the one before it ended, or later.
pub open spec fn in_sequence(points: Seq<Point>) -> bool {
    forall|i: int, j: int|
        0 <= i < j < points.len() ==> nanos((#[trigger] points[i]).t) <= nanos(
            (#[trigger] points[j]).t,
        ) - points[j].dt
}

proof fn coverage_reaches_the_last_point(points: Seq<Point>, from: int, to: int)
    requires
        in_sequence(points),
        from <= to,
    ensures
        window_over(points, from, to).seconds <= to - from,
        points.len() > 0 ==> window_over(points, from, to).seconds <= greater(
            0,
            lesser(nanos(points.last().t), to) - from,
        ),
    decreases points.len(),
{
    if points.len() > 0 {
        let before = points.drop_last();
        assert(in_sequence(before));
        coverage_reaches_the_last_point(before, from, to);
        if before.len() > 0 {
            assert(points[points.len() - 2] == before.last());
            assert(points[points.len() - 1] == points.last());
        }
    }
}

/// A window over intervals that do not overlap observes no more time than its
/// span is long.
pub proof fn windows_observe_at_most_their_span(points: Seq<Point>, from: int, to: int)
    requires
        in_sequence(points),
        from <= to,
    ensures
        window_over(points, from, to).seconds <= to - from,
{
    coverage_reaches_the_last_point(points, from, to);
}

/// Without a single reading a window has no mean: what is not measured is
/// unknown, not zero.
pub proof fn unknown_is_not_zero(points: Seq<Point>, from: int, to: int)
    requires
        forall|i: int| 0 <= i < points.len() ==> (#[trigger] points[i]).w is None,
    ensures
        window_over(points, from, to).mean_of() is None,
    decreases points.len(),
{
    if points.len() > 0 {
        assert(points[points.len() - 1].w is None);
        assert forall|i: int| 0 <= i < points.len() - 1 implies (
        #[trigger] points.drop_last()[i]).w is None by {
            assert(points[i].w is None);
        }
        unknown_is_not_zero(points.drop_last(), from, to);
    }
}

/// The times of the history do not fall.
pub open spec fn times_rise(h: Seq<Point>) -> bool {
    forall|i: int, j: int| 0 <= i < j < h.len() ==> (#[trigger] h[i]).t <= (#[trigger] h[j]).t
}

proof fn pruning_leaves_the_recent(h: Seq<Point>, elapsed: i64)
    requires
        times_rise(h),
    ensures
        times_rise(pruned(h, elapsed)),
        forall|i: int|
            0 <= i < pruned(h, elapsed).len() ==> !stale(
                (#[trigger] pruned(h, elapsed)[i]).t,
                elapsed,
            ),
        forall|i: int| #![trigger h[i]]
            0 <= i < h.len() && !stale(h[i].t, elapsed) ==> pruned(h, elapsed).contains(h[i]),
        pruned(h, elapsed).len() <= h.len(),
        forall|i: int|
            0 <= i < pruned(h, elapsed).len() ==> h.contains(#[trigger] pruned(h, elapsed)[i]),
    decreases h.len(),
{
    if h.len() > 0 && stale(h[0].t, elapsed) {
        let rest = h.skip(1);
        assert(times_rise(rest)) by {
            assert forall|i: int, j: int| 0 <= i < j < rest.len() implies (#[trigger] rest[i]).t
                <= (#[trigger] rest[j]).t by {
                assert(h[i + 1].t <= h[j + 1].t);
            }
        }
        pruning_leaves_the_recent(rest, elapsed);
        assert forall|i: int| #![trigger h[i]]
            0 <= i < h.len() && !stale(h[i].t, elapsed) implies pruned(h, elapsed).contains(
            h[i],
        ) by {
            assert(rest[i - 1] == h[i]);
        }
        assert forall|i: int| 0 <= i < pruned(h, elapsed).len() implies h.contains(
            #[trigger] pruned(h, elapsed)[i],
        ) by {
            let p = pruned(rest, elapsed)[i];
            assert(rest.contains(p));
            let k = choose|k: int| 0 <= k < rest.len() && rest[k] == p;
            assert(h[k + 1] == p);
        }
    } else if h.len() > 0 {
        assert forall|i: int| 0 <= i < h.len() implies !stale((#[trigger] h[i]).t, elapsed) by {
            if i > 0 {
                assert(h[0].t <= h[i].t);
            }
        }
    }
}

/// While time does not run back, the history holds exactly the intervals of
/// the last five minutes.
pub proof fn history_holds_the_last_five_minutes(
    l: LedgerView,
    elapsed_s: i64,
    gap: bool,
    sampler_ms: u64,
    s: Sample,
)
    requires
        times_rise(l.history),
        forall|i: int| 0 <= i < l.history.len() ==> (#[trigger] l.history[i]).t <= elapsed_s,
    ensures
        ({
            let h = sampled(l, elapsed_s, gap, sampler_ms, s).history;
            &&& times_rise(h)
            &&& forall|i: int|
                0 <= i < h.len() ==> elapsed_s - 300_000_000 <= (#[trigger] h[i]).t <= elapsed_s
            &&& forall|p: Point| #[trigger]
                h.contains(p) <==> (l.history.contains(p) || p == point_of(l, elapsed_s, gap, s))
                    && !stale(p.t, elapsed_s)
        }),
{
    let point = point_of(l, elapsed_s, gap, s);
    let longer = l.history.push(point);
    let h = pruned(longer, elapsed_s);
    pruning_leaves_the_recent(longer, elapsed_s);
    assert forall|i: int| 0 <= i < h.len() implies elapsed_s - 300_000_000 <= (#[trigger] h[i]).t
        <= elapsed_s by {
        let k = choose|k: int| 0 <= k < longer.len() && longer[k] == h[i];
        assert(longer[k].t <= elapsed_s);
    }
    assert forall|p: Point| #[trigger]
        h.contains(p) <==> (l.history.contains(p) || p == point) && !stale(p.t, elapsed_s) by {
        if h.contains(p) {
            let i = choose|i: int| 0 <= i < h.len() && h[i] == p;
            assert(longer.contains(h[i]));
            let k = choose|k: int| 0 <= k < longer.len() && longer[k] == p;
            if k < l.history.len() {
                assert(l.history[k] == p);
            }
        }
        if l.history.contains(p) && !stale(p.t, elapsed_s) {
            let k = choose|k: int| 0 <= k < l.history.len() && l.history[k] == p;
            assert(longer[k] == p);
        }
        if p == point && !stale(p.t, elapsed_s) {
            assert(longer[l.history.len() as int] == p);
        }
    }
}

/// The CPU energy of a group, or nothing if there is no such group.
pub open spec fn energy_of(groups: Seq<ConsumerView>, name: Seq<char>) -> u128 {
    let i = place(groups, name);
    if i < groups.len() {
        groups[i].cpu_j
    } else {
        0
    }
}

/// The CPU energy that some rows add to a group.
pub open spec fn row_energy(rows: Seq<ProcRow>, name: Seq<char>, dt: u64) -> int
    decreases rows.len(),
{
    if rows.len() == 0 {
        0
    } else {
        row_energy(rows.drop_last(), name, dt) + if group_of(rows.last()) == name {
            or_zero(rows.last().energy_mw) * dt
        } else {
            0
        }
    }
}

/// The CPU energy that a recording adds to a group: that of its intervals
/// without gaps.
pub open spec fn recorded_energy(records: Seq<Record>, name: Seq<char>) -> int
    decreases records.len(),
{
    if records.len() == 0 {
        0
    } else {
        recorded_energy(records.drop_last(), name) + match records.last() {
            Record::Sample { gap, sample, .. } => if gap {
                0
            } else {
                row_energy(sample.procs@, name, sample.dt_ns)
            },
            _ => 0,
        }
    }
}

proof fn place_is(groups: Seq<ConsumerView>, name: Seq<char>, i: int)
    requires
        0 <= i <= groups.len(),
        i < groups.len() ==> groups[i].name == name,
        forall|k: int| 0 <= k < i ==> (#[trigger] groups[k]).name != name,
    ensures
        place(groups, name) == i,
{
    place_is_first(groups, name);
    let p = place(groups, name);
    if p < i {
        assert(groups[p].name != name);
    }
    if i < p {
        assert(groups[i].name != name);
    }
}

proof fn a_row_adds_its_energy(groups: Seq<ConsumerView>, p: ProcRow, dt: u64, name: Seq<char>)
    ensures
        energy_of(with_row(groups, p, dt), name) == if group_of(p) == name {
            capped(energy_of(groups, name) + or_zero(p.energy_mw) * dt)
        } else {
            energy_of(groups, name)
        },
{
    let e = or_zero(p.energy_mw);
    assert(e * dt >= 0) by (nonlinear_arith)
        requires
            e >= 0,
            dt >= 0,
    ;
    if p.cpu_percent is None && p.energy_mw is None {
        assert(e * dt == 0) by (nonlinear_arith)
            requires
                e == 0,
        ;
    } else {
        let after = with_row(groups, p, dt);
        let own = place(groups, group_of(p));
        place_is_first(groups, group_of(p));
        let at = place(groups, name);
        place_is_first(groups, name);
        if group_of(p) == name {
            assert forall|k: int| 0 <= k < own implies (#[trigger] after[k]).name != name by {
                assert(after[k] == groups[k]);
            }
            place_is(after, name, own);
        } else {
            assert forall|k: int| 0 <= k < at implies (#[trigger] after[k]).name != name by {
                assert(after[k].name == groups[k].name);
            }
            if at < groups.len() {
                assert(at != own);
                assert(after[at] == groups[at]);
                place_is(after, name, at);
            } else {
                assert forall|k: int| 0 <= k < after.len() implies (#[trigger] after[k]).name
                    != name by {
                    if k < groups.len() {
                        assert(after[k].name == groups[k].name);
                    }
                }
                place_is(after, name, after.len() as int);
            }
        }
    }
}

/// One sample adds to each group the sum over its rows of power times the
/// interval, and to no other.
pub proof fn rows_add_their_energy(
    groups: Seq<ConsumerView>,
    rows: Seq<ProcRow>,
    dt: u64,
    name: Seq<char>,
)
    ensures
        row_energy(rows, name, dt) >= 0,
        energy_of(with_rows(groups, rows, dt), name) == capped(
            energy_of(groups, name) + row_energy(rows, name, dt),
        ),
    decreases rows.len(),
{
    if rows.len() > 0 {
        let less = rows.drop_last();
        rows_add_their_energy(groups, less, dt, name);
        a_row_adds_its_energy(with_rows(groups, less, dt), rows.last(), dt, name);
        let e = or_zero(rows.last().energy_mw);
        assert(e * dt >= 0) by (nonlinear_arith)
            requires
                e >= 0,
                dt >= 0,
        ;
        capped_sum(energy_of(groups, name) + row_energy(less, name, dt), e * dt);
    }
}

/// The CPU energy of a group over a recording is the sum over its processes
/// of power times interval, from zero: nothing that was used before counts,
/// and a process that exits takes nothing away.
pub proof fn group_energy_is_the_sum(records: Seq<Record>, name: Seq<char>)
    ensures
        recorded_energy(records, name) >= 0,
        energy_of(replayed(blank(), records).groups, name) == capped(
            recorded_energy(records, name),
        ),
    decreases records.len(),
{
    if records.len() > 0 {
        let less = records.drop_last();
        let before = replayed(blank(), less).groups;
        group_energy_is_the_sum(less, name);
        if let Record::Sample { gap, sample, .. } = records.last() {
            rows_add_their_energy(before, sample.procs@, sample.dt_ns, name);
            capped_sum(
                recorded_energy(less, name),
                row_energy(sample.procs@, name, sample.dt_ns),
            );
        }
    }
}

/// The intervals that some events end, as the ledger sees them.
pub open spec fn points_of(l: LedgerView, records: Seq<Record>) -> Seq<Point>
    decreases records.len(),
{
    if records.len() == 0 {
        seq![]
    } else {
        let before = records.drop_last();
        match records.last() {
            Record::Sample { elapsed_s, gap, sample, .. } => points_of(l, before).push(
                point_of(replayed(l, before), elapsed_s, gap, *sample),
            ),
            _ => points_of(l, before),
        }
    }
}

/// What is measured after a change is the window over the intervals that
/// follow it, once it has settled and until another change is marked; over
/// intervals that do not overlap that is one minute at most.
pub proof fn a_change_is_measured_over_what_follows(l: LedgerView, records: Seq<Record>)
    requires
        l.comparisons.len() > 0,
        l.comparisons.last().after == (Window { joules: 0, seconds: 0 }),
        forall|i: int| 0 <= i < records.len() ==> !((#[trigger] records[i]) is Marker),
    ensures
        ({
            let (from, to) = span_after(l.comparisons.last().t);
            let c = replayed(l, records).comparisons.last();
            &&& replayed(l, records).comparisons.len() == l.comparisons.len()
            &&& c.t == l.comparisons.last().t
            &&& c.label == l.comparisons.last().label
            &&& c.after == window_over(points_of(l, records), from, to)
            &&& in_sequence(points_of(l, records)) ==> c.after.seconds <= 60 * SECOND
        }),
    decreases records.len(),
{
    let (from, to) = span_after(l.comparisons.last().t);
    if records.len() > 0 {
        let before = records.drop_last();
        assert forall|i: int| 0 <= i < before.len() implies !((#[trigger] before[i]) is Marker) by {
            assert(!(records[i] is Marker));
        }
        assert(!(records[records.len() - 1] is Marker));
        a_change_is_measured_over_what_follows(l, before);
        if let Record::Sample { elapsed_s, gap, sample, .. } = records.last() {
            let p = point_of(replayed(l, before), elapsed_s, gap, *sample);
            assert(points_of(l, before).push(p).drop_last() =~= points_of(l, before));
        }
    }
    if in_sequence(points_of(l, records)) {
        windows_observe_at_most_their_span(points_of(l, records), from, to);
    }
}

/// One observed interval: its mean discharge, when it ended, and the processes
/// of the sample that ended it.
pub ghost struct Observed {
    pub w: u64,
    pub t: i64,
    pub rows: Seq<ProcRow>,
}

/// The observed intervals of a recording, in order.
pub open spec fn observed_intervals(records: Seq<Record>) -> Seq<Observed>
    decreases records.len(),
{
    if records.len() == 0 {
        seq![]
    } else {
        let before = records.drop_last();
        match records.last() {
            Record::Sample { elapsed_s, gap, sample, .. } => match interval_power(
                last_sample(before),
                gap,
                *sample,
            ) {
                Some(w) => observed_intervals(before).push(
                    Observed { w, t: elapsed_s, rows: sample.procs@ },
                ),
                None => observed_intervals(before),
            },
            _ => observed_intervals(before),
        }
    }
}

/// The interval at `i` is the first that reaches `w`.
pub open spec fn first_reaches(v: Seq<Observed>, i: int, w: u64) -> bool {
    &&& 0 <= i < v.len()
    &&& v[i].w == w
    &&& forall|j: int| 0 <= j < i ==> (#[trigger] v[j]).w < w
}

/// The peak of a recording is the greatest mean discharge among its observed
/// intervals, with the time and the greatest users of the first that reached
/// it. Without any discharge there is none.
pub proof fn the_peak_is_the_first_greatest_interval(records: Seq<Record>)
    ensures
        ({
            let l = replayed(blank(), records);
            let v = observed_intervals(records);
            &&& forall|i: int| 0 <= i < v.len() ==> (#[trigger] v[i]).w <= l.peak_w
            &&& l.peak_w == 0 ==> l.peak_at == 0 && l.peak_consumers == Seq::<char>::empty()
            &&& l.peak_w > 0 ==> exists|i: int| #[trigger]
                first_reaches(v, i, l.peak_w) && l.peak_at == v[i].t && l.peak_consumers
                    == text::joined(top_users(v[i].rows), ", "@)
        }),
    decreases records.len(),
{
    if records.len() > 0 {
        let before = records.drop_last();
        let old_v = observed_intervals(before);
        let v = observed_intervals(records);
        let was = replayed(blank(), before);
        let l = replayed(blank(), records);
        the_peak_is_the_first_greatest_interval(before);
        battery_total_is_the_integral(before);
        let n = old_v.len() as int;
        assert(v.len() == n || (v.len() == n + 1 && v.drop_last() =~= old_v));
        assert forall|i: int| 0 <= i < v.len() implies (#[trigger] v[i]).w <= l.peak_w by {
            if i < n {
                assert(v[i] == old_v[i]);
            }
        }
        if l.peak_w > was.peak_w {
            assert(v.len() == n + 1);
            assert forall|j: int| 0 <= j < n implies (#[trigger] v[j]).w < l.peak_w by {
                assert(v[j] == old_v[j]);
            }
            assert(first_reaches(v, n, l.peak_w));
        } else if l.peak_w > 0 {
            let i = choose|i: int| #[trigger]
                first_reaches(old_v, i, was.peak_w) && was.peak_at == old_v[i].t
                    && was.peak_consumers == text::joined(top_users(old_v[i].rows), ", "@);
            assert forall|j: int| 0 <= j < i implies (#[trigger] v[j]).w < l.peak_w by {
                assert(v[j] == old_v[j]);
            }
            assert(v[i] == old_v[i]);
            assert(first_reaches(v, i, l.peak_w));
        }
    }
}

/// The users of a peak are at most three of the measured processes, none of
/// the others uses more, and the greatest comes first.
pub proof fn peak_users_are_the_greatest(rows: Seq<ProcRow>)
    requires
        measured(rows).len() <= usize::MAX,
    ensures
        ({
            let m = measured(rows);
            let order = ranking(energy_keys(m));
            &&& top_users(rows).len() == lesser(m.len() as int, 3)
            &&& is_stable_ranking(energy_keys(m), order)
            &&& forall|i: int|
                0 <= i < top_users(rows).len() ==> #[trigger] top_users(rows)[i] == user_text(
                    m[order[i] as int],
                )
            &&& forall|i: int, j: int|
                0 <= i < j < order.len() ==> or_zero(m[#[trigger] order[i] as int].energy_mw)
                    >= or_zero(m[#[trigger] order[j] as int].energy_mw)
        }),
{
    let m = measured(rows);
    let keys = energy_keys(m);
    let order = ranking(keys);
    ranking_is_stable(keys);
    assert forall|i: int, j: int| 0 <= i < j < order.len() implies or_zero(
        m[#[trigger] order[i] as int].energy_mw,
    ) >= or_zero(m[#[trigger] order[j] as int].energy_mw) by {
        assert(precedes(keys, order[i], order[j]));
        assert(keys[order[i] as int] == (key_of(m[order[i] as int].energy_mw), 0u128));
        assert(keys[order[j] as int] == (key_of(m[order[j] as int].energy_mw), 0u128));
    }
}

/// The energy of some points inside a span.
pub open spec fn energy_over(points: Seq<Point>, from: int, to: int) -> int
    decreases points.len(),
{
    if points.len() == 0 {
        0
    } else {
        energy_over(points.drop_last(), from, to) + match points.last().w {
            Some(w) => w * overlap(points.last(), from, to),
            None => 0,
        }
    }
}

/// The time inside a span for which the power is known.
pub open spec fn time_over(points: Seq<Point>, from: int, to: int) -> int
    decreases points.len(),
{
    if points.len() == 0 {
        0
    } else {
        time_over(points.drop_last(), from, to) + match points.last().w {
            Some(_) => overlap(points.last(), from, to),
            None => 0,
        }
    }
}

/// The powers of the intervals that overlap a span lie between two bounds.
pub open spec fn powers_between(
    points: Seq<Point>,
    from: int,
    to: int,
    low: u64,
    high: u64,
) -> bool {
    forall|i: int|
        0 <= i < points.len() && (#[trigger] points[i]).w is Some && overlap(points[i], from, to)
            > 0 ==> low <= points[i].w->0 <= high
}

proof fn window_holds_the_sums(points: Seq<Point>, from: int, to: int)
    ensures
        energy_over(points, from, to) >= 0,
        time_over(points, from, to) >= 0,
        window_over(points, from, to).joules == capped(energy_over(points, from, to)),
        window_over(points, from, to).seconds == capped(time_over(points, from, to)),
    decreases points.len(),
{
    if points.len() > 0 {
        let less = points.drop_last();
        window_holds_the_sums(less, from, to);
        if let Some(w) = points.last().w {
            let o = overlap(points.last(), from, to);
            assert(w * o >= 0) by (nonlinear_arith)
                requires
                    w >= 0,
                    o >= 0,
            ;
            capped_sum(energy_over(less, from, to), w * o);
            capped_sum(time_over(less, from, to), o);
        }
    }
}

proof fn energy_lies_between(points: Seq<Point>, from: int, to: int, low: u64, high: u64)
    requires
        powers_between(points, from, to, low, high),
    ensures
        low * time_over(points, from, to) <= energy_over(points, from, to) <= high * time_over(
            points,
            from,
            to,
        ),
    decreases points.len(),
{
    if points.len() == 0 {
        assert(low * 0 == 0 && high * 0 == 0) by (nonlinear_arith);
    } else {
        let less = points.drop_last();
        assert(powers_between(less, from, to, low, high)) by {
            assert forall|i: int|
                0 <= i < less.len() && (#[trigger] less[i]).w is Some && overlap(less[i], from, to)
                    > 0 implies low <= less[i].w->0 <= high by {
                assert(points[i] == less[i]);
            }
        }
        energy_lies_between(less, from, to, low, high);
        if let Some(w) = points.last().w {
            let o = overlap(points.last(), from, to);
            let t = time_over(less, from, to);
            assert(points[points.len() - 1].w is Some);
            assert(low * (t + o) == low * t + low * o) by (nonlinear_arith);
            assert(high * (t + o) == high * t + high * o) by (nonlinear_arith);
            if o > 0 {
                assert(low * o <= w * o <= high * o) by (nonlinear_arith)
                    requires
                        low <= w <= high,
                        o > 0,
                ;
            } else {
                assert(low * o == 0 && w * o == 0 && high * o == 0) by (nonlinear_arith)
                    requires
                        o == 0,
                ;
            }
        }
    }
}

/// The mean of a window is the energy of its observed time over that time,
/// and lies between the smallest and the greatest power of the intervals that
/// overlap it; without observed time there is none.
pub proof fn a_mean_lies_among_its_powers(
    points: Seq<Point>,
    from: int,
    to: int,
    low: u64,
    high: u64,
)
    requires
        energy_over(points, from, to) <= u128::MAX,
        time_over(points, from, to) <= u128::MAX,
        powers_between(points, from, to, low, high),
    ensures
        ({
            let mean = window_over(points, from, to).mean_of();
            let time = time_over(points, from, to);
            &&& mean is None <==> time == 0
            &&& mean is Some ==> mean->0 == energy_over(points, from, to) / time
            &&& mean is Some ==> low <= mean->0 <= high
        }),
{
    window_holds_the_sums(points, from, to);
    energy_lies_between(points, from, to, low, high);
    let e = energy_over(points, from, to);
    let t = time_over(points, from, to);
    if t > 0 {
        assert(low <= e / t <= high) by (nonlinear_arith)
            requires
                t > 0,
                low * t <= e <= high * t,
        ;
    }
}

proof fn energy_is_bounded(points: Seq<Point>, from: int, to: int)
    ensures
        energy_over(points, from, to) <= u64::MAX * time_over(points, from, to),
{
    assert(powers_between(points, from, to, 0, u64::MAX));
    energy_lies_between(points, from, to, 0, u64::MAX);
}

/// The rolling mean of a ledger whose intervals do not overlap lies between the
/// smallest and the greatest power of the intervals that reach into the last
/// minute.
pub proof fn the_rolling_mean_lies_among_recent_powers(l: LedgerView, low: u64, high: u64)
    requires
        in_sequence(l.history),
        powers_between(
            l.history,
            span_before(l.elapsed).0,
            span_before(l.elapsed).1,
            low,
            high,
        ),
    ensures
        ({
            let (from, to) = span_before(l.elapsed);
            let mean = window_over(l.history, from, to).mean_of();
            let time = time_over(l.history, from, to);
            &&& mean is None <==> time == 0
            &&& mean is Some ==> mean->0 == energy_over(l.history, from, to) / time
            &&& mean is Some ==> low <= mean->0 <= high
        }),
{
    let (from, to) = span_before(l.elapsed);
    window_holds_the_sums(l.history, from, to);
    windows_observe_at_most_their_span(l.history, from, to);
    energy_is_bounded(l.history, from, to);
    let t = time_over(l.history, from, to);
    assert(u64::MAX * t <= u64::MAX * 60_000_000_000) by (nonlinear_arith)
        requires
            t <= 60_000_000_000,
    ;
    a_mean_lies_among_its_powers(l.history, from, to, low, high);
}

/// An interval whose power is unknown, or that lies outside the span, has no
/// influence on a window.
pub proof fn unknown_and_outside_intervals_have_no_influence(
    points: Seq<Point>,
    i: int,
    from: int,
    to: int,
)
    requires
        0 <= i < points.len(),
        points[i].w is None || overlap(points[i], from, to) == 0,
    ensures
        window_over(points.remove(i), from, to) == window_over(points, from, to),
    decreases points.len(),
{
    if i == points.len() - 1 {
        assert(points.remove(i) =~= points.drop_last());
        if let Some(w) = points[i].w {
            assert(w * 0 == 0) by (nonlinear_arith);
        }
    } else {
        unknown_and_outside_intervals_have_no_influence(points.drop_last(), i, from, to);
        assert(points.remove(i).drop_last() =~= points.drop_last().remove(i));
        assert(points.remove(i).last() == points.last());
    }
}

/// A report reconstructs what was recorded: a file of framed events is read
/// line by line, and where each line is parsed as the event that was written,
/// those events are taken in order and come to the ledger of the recording.
pub proof fn a_report_reconstructs_the_ledger(
    members: Seq<Seq<u8>>,
    lines: Seq<Seq<u8>>,
    parsed: Seq<Result<Record, String>>,
    records: Seq<Record>,
)
    requires
        members.len() == lines.len(),
        lines.len() == parsed.len(),
        parsed.len() == records.len(),
        forall|i: int| 0 <= i < members.len() ==> is_member(#[trigger] members[i], lines[i]),
        forall|i: int| 0 <= i < lines.len() ==> is_line(#[trigger] lines[i]),
        forall|i: int|
            0 <= i < parsed.len() ==> (#[trigger] parsed[i]) == Ok::<Record, String>(records[i])
                && records[i].known(),
    ensures
        ({
            let (texts, ending) = recording_in(run(members));
            let (taken, result) = accepted(parsed, ending, 0);
            &&& texts == line_texts(lines)
            &&& taken == records
            &&& result == Ok::<int, Seq<char>>(records.len() as int)
            &&& replayed(blank(), taken) == replayed(blank(), records)
        }),
{
    written_events_are_read_back(members, lines);
    assert forall|i: int| 0 <= i < parsed.len() implies is_sound(#[trigger] parsed[i]) by {
        assert(parsed[i] == Ok::<Record, String>(records[i]));
    }
    partial_endings_are_passed_over(parsed, EndingView::Whole, 0);
    assert(events(parsed) =~= records) by {
        assert forall|i: int| 0 <= i < records.len() implies events(parsed)[i] == records[i] by {
            assert(parsed[i] == Ok::<Record, String>(records[i]));
        }
    }
}

} // verus!
