//! What the totals of a ledger mean, in terms of what was measured.
//!
//! Powers are in nanowatts, times of events in millionths of a second, lengths
//! in nanoseconds and energies in attojoules.

use crate::analysis::{
    compared, discharge_of, group_of, interval_energy, interval_power, measured, overlap, place,
    place_is_first, pruned, system_of, system_pruned, system_widened, top_users, user_text, widened,
    window_over, with_row, Comparison, ConsumerView, Point, Window,
};
use crate::ledger::{applied, blank, point_of, rolling_of, sampled, LedgerView};
use crate::notation::{decimals_write_the_nearest, writes};
use crate::num::fixed;
use crate::record::Record;
use crate::samplers::battery::{frame_of, BatteryProperties};
use crate::text::{first_from, first_from_is_least, joined, occurs_at, pieces};
use crate::types::{ProcRow, Sample};
use vstd::prelude::*;

verus! {

/// The battery runs the machine: it says so, its voltage is there, and power
/// flows out of it or not at all.
pub open spec fn runs_on_battery(s: Sample) -> bool {
    s.battery matches Some(b) && b.voltage_mv > 0 && b.system_power_mw <= 0 && !b.is_charging
        && !b.external_connected
}

/// The power that flows out of the battery.
pub open spec fn outflow(s: Sample) -> int {
    -(s.battery->0.system_power_mw as int)
}

/// The discharge of a sample is the measured system power, with its sign
/// turned, where the machine runs on its battery; anywhere else it is unknown.
pub proof fn discharge_is_the_measured_power(s: Sample)
    ensures
        discharge_of(s) is Some <==> runs_on_battery(s),
        runs_on_battery(s) ==> discharge_of(s)->0 == outflow(s),
{
}

/// Nothing but the power, the sign of the voltage and what the machine runs on
/// decides the discharge.
pub proof fn discharge_depends_on_power_alone(s: Sample, t: Sample)
    requires
        s.battery is Some,
        t.battery is Some,
        s.battery->0.system_power_mw == t.battery->0.system_power_mw,
        s.battery->0.voltage_mv > 0 <==> t.battery->0.voltage_mv > 0,
        s.battery->0.is_charging == t.battery->0.is_charging,
        s.battery->0.external_connected == t.battery->0.external_connected,
    ensures
        discharge_of(s) == discharge_of(t),
{
}

/// From the properties of the battery to the discharge: voltage times current,
/// in millionths of a millivolt and whole milliamperes.
pub proof fn discharge_is_voltage_times_current(p: BatteryProperties, s: Sample, mv: i64, ma: i64)
    requires
        p.voltage == Some(mv),
        mv > 0,
        p.instant_amperage == Some(ma) || (p.instant_amperage is None && p.amperage == Some(ma)),
        ma <= 0,
        mv * -ma <= 1000 * i64::MAX,
        p.is_charging != Some(true),
        p.external_connected != Some(true),
        s.battery == frame_of(p),
    ensures
        discharge_of(s) is Some,
        1000 * discharge_of(s)->0 <= mv * -ma < 1000 * (discharge_of(s)->0 + 1),
{
    let x = mv * ma;
    assert(mv * -ma == -x && x <= 0) by (nonlinear_arith)
        requires
            x == mv * ma,
            mv > 0,
            ma <= 0,
    ;
}

/// At one current the discharge grows with the voltage: twice the voltage is
/// twice the discharge, to less than two nanowatts.
pub proof fn discharge_scales_with_the_voltage(
    p: BatteryProperties,
    q: BatteryProperties,
    s: Sample,
    t: Sample,
    mv: i64,
    ma: i64,
)
    requires
        p.voltage == Some(mv),
        mv > 0,
        2 * mv <= i64::MAX,
        q == (BatteryProperties { voltage: Some((2 * mv) as i64), ..p }),
        p.instant_amperage == Some(ma),
        ma <= 0,
        2 * mv * -ma <= 1000 * i64::MAX,
        p.is_charging != Some(true),
        p.external_connected != Some(true),
        s.battery == frame_of(p),
        t.battery == frame_of(q),
    ensures
        2 * discharge_of(s)->0 <= discharge_of(t)->0 < 2 * discharge_of(s)->0 + 2,
{
    assert((2 * mv) * -ma == 2 * (mv * -ma) && mv * -ma >= 0) by (nonlinear_arith)
        requires
            mv > 0,
            ma <= 0,
    ;
    discharge_is_voltage_times_current(p, s, mv, ma);
    discharge_is_voltage_times_current(q, t, (2 * mv) as i64, ma);
}

/// Between two samples on battery the mean discharge is half the sum of both
/// ends, and the energy is that times the interval; otherwise both are unknown.
pub proof fn intervals_are_trapezoids(previous: Option<Sample>, gap: bool, s: Sample)
    ensures
        ({
            let observed = !gap && previous is Some && runs_on_battery(previous->0)
                && runs_on_battery(s);
            let sum = outflow(previous->0) + outflow(s);
            let w = interval_power(previous, gap, s);
            let e = interval_energy(previous, gap, s);
            &&& w is Some <==> observed
            &&& e is Some <==> observed
            &&& observed ==> 2 * w->0 <= sum < 2 * w->0 + 2
            &&& observed ==> 2 * e->0 <= sum * s.dt_ns < 2 * e->0 + 2
        }),
{
}

/// A sample that ends an observed interval adds its energy and its length to
/// the totals, moves the peak up to its mean if that is greater, and enters the
/// history; its mean discharge is half the sum of both ends.
pub proof fn an_observed_interval_counts(
    l: LedgerView,
    before: Sample,
    elapsed_s: i64,
    sampler_ms: u64,
    s: Sample,
)
    requires
        l.latest == Some(before),
        runs_on_battery(before),
        runs_on_battery(s),
        l.battery_j + (outflow(before) + outflow(s)) * s.dt_ns <= u128::MAX,
        l.battery_seconds + s.dt_ns <= u128::MAX,
    ensures
        ({
            let r = sampled(l, elapsed_s, false, sampler_ms, s);
            let sum = outflow(before) + outflow(s);
            let added = r.battery_j - l.battery_j;
            &&& 2 * added <= sum * s.dt_ns < 2 * added + 2
            &&& r.battery_seconds == l.battery_seconds + s.dt_ns
            &&& r.gaps == l.gaps
            &&& l.peak_w <= r.peak_w
            &&& 2 * l.peak_w + 1 >= sum ==> r.peak_w == l.peak_w && r.peak_at == l.peak_at
            &&& sum > 2 * l.peak_w + 1 ==> 2 * r.peak_w <= sum < 2 * r.peak_w + 2 && r.peak_at
                == elapsed_s && r.peak_consumers == joined(top_users(s.procs@), ", "@)
            &&& l.history.len() == 0 ==> r.history.len() == 1 && r.history[0].t == elapsed_s
                && r.history[0].dt == s.dt_ns && r.history[0].w is Some && 2
                * r.history[0].w->0 <= sum < 2 * r.history[0].w->0 + 2
        }),
{
    let sum = outflow(before) + outflow(s);
    assert(sum * s.dt_ns >= 0) by (nonlinear_arith)
        requires
            sum >= 0,
            s.dt_ns >= 0,
    ;
    intervals_are_trapezoids(l.latest, false, s);
    let point = point_of(l, elapsed_s, false, s);
    if l.history.len() == 0 {
        assert(l.history.push(point) =~= seq![point]);
        assert(pruned(seq![point], elapsed_s) == seq![point]);
    }
}

/// Every sample is the latest, is counted, and says when it was taken, what it
/// cost, and for how many of its processes energy was measured. A gap is
/// counted as one.
pub proof fn every_sample_is_noted(
    l: LedgerView,
    elapsed_s: i64,
    gap: bool,
    sampler_ms: u64,
    s: Sample,
)
    requires
        l.samples < u64::MAX,
        l.gaps < u64::MAX,
    ensures
        ({
            let r = sampled(l, elapsed_s, gap, sampler_ms, s);
            &&& r.latest == Some(s)
            &&& r.samples == l.samples + 1
            &&& r.elapsed == elapsed_s
            &&& r.sampler_ms == sampler_ms
            &&& r.total_procs == s.procs@.len()
            &&& r.measured_procs == measured(s.procs@).len()
            &&& r.gaps == l.gaps + (if gap { 1int } else { 0int })
            &&& r.assertions == l.assertions
            &&& r.notices == l.notices
            &&& r.recorder_pid == l.recorder_pid
            &&& r.ended == l.ended
            &&& r.vms == l.vms
            &&& r.comparisons.len() == l.comparisons.len()
        }),
{
    assert(s.procs.len() == s.procs@.len());
    measured_has_energy(s.procs@);
}

/// Measured rows are those with an energy reading, in their order.
pub proof fn measured_has_energy(rows: Seq<ProcRow>)
    ensures
        measured(rows).len() <= rows.len(),
        forall|i: int| 0 <= i < measured(rows).len() ==> (#[trigger] measured(rows)[i]).energy_mw
            is Some,
        forall|i: int|
            0 <= i < rows.len() && (#[trigger] rows[i]).energy_mw is Some ==> measured(
                rows,
            ).contains(rows[i]),
        rows.len() > 0 ==> measured(rows) == if rows.last().energy_mw is Some {
            measured(rows.drop_last()).push(rows.last())
        } else {
            measured(rows.drop_last())
        },
    decreases rows.len(),
{
    reveal(Seq::filter);
    if rows.len() > 0 {
        let less = rows.drop_last();
        measured_has_energy(less);
        assert forall|i: int| 0 <= i < rows.len() && (#[trigger] rows[i]).energy_mw is Some implies
            measured(rows).contains(rows[i]) by {
            if i < less.len() {
                assert(less[i] == rows[i]);
                let k = choose|k: int|
                    0 <= k < measured(less).len() && measured(less)[k] == rows[i];
                assert(measured(rows)[k] == rows[i]);
            } else {
                assert(measured(rows)[measured(rows).len() - 1] == rows[i]);
            }
        }
    }
}

/// Every other event changes what it speaks of and leaves the totals alone.
pub proof fn other_events_change_no_totals(l: LedgerView, record: Record)
    requires
        !(record is Sample),
    ensures
        ({
            let r = applied(l, record);
            &&& r.elapsed == l.elapsed
            &&& r.battery_j == l.battery_j
            &&& r.battery_seconds == l.battery_seconds
            &&& r.gaps == l.gaps
            &&& r.peak_w == l.peak_w
            &&& r.peak_at == l.peak_at
            &&& r.peak_consumers == l.peak_consumers
            &&& r.groups == l.groups
            &&& r.history == l.history
            &&& r.system_history == l.system_history
            &&& r.system_energy == l.system_energy
            &&& r.latest == l.latest
            &&& r.sampler_ms == l.sampler_ms
            &&& r.measured_procs == l.measured_procs
            &&& r.total_procs == l.total_procs
            &&& r.samples == l.samples
            &&& r.ended == (l.ended || record is End)
            &&& !(record is Marker) ==> r.comparisons == l.comparisons
            &&& !(record is Vm) ==> r.vms == l.vms
            &&& match record {
                Record::Notice { message, .. } => r.notices == l.notices.push(message),
                _ => r.notices == l.notices,
            }
            &&& match record {
                Record::Context { assertions, .. } => r.assertions == assertions@,
                _ => r.assertions == l.assertions,
            }
            &&& match record {
                Record::Session { recorder_pid, .. } => r.recorder_pid == recorder_pid,
                _ => r.recorder_pid == l.recorder_pid,
            }
            &&& match record {
                Record::Marker { elapsed_s, label, .. } => r.comparisons.len()
                    == l.comparisons.len() + 1 && r.comparisons.last().t == elapsed_s
                    && r.comparisons.last().label == label && r.comparisons.last().after.seconds
                    == 0 && r.comparisons.last().after.joules == 0 && forall|i: int|
                    0 <= i < l.comparisons.len() ==> r.comparisons[i] == l.comparisons[i],
                _ => true,
            }
        }),
{
}

/// Nothing is known before the first event.
pub proof fn a_ledger_starts_at_zero()
    ensures
        blank().battery_j == 0,
        blank().battery_seconds == 0,
        blank().gaps == 0,
        blank().peak_w == 0,
        blank().samples == 0,
        blank().groups.len() == 0,
        blank().history.len() == 0,
        blank().system_history.len() == 0,
        blank().system_energy.joules == 0,
        blank().system_energy.seconds == 0,
        blank().comparisons.len() == 0,
        blank().vms.len() == 0,
        blank().notices.len() == 0,
        blank().latest is None,
        !blank().ended,
{
}

/// The part of an interval inside a span, in nanoseconds: from the later start
/// to the earlier end.
pub open spec fn inside(p: Point, from: int, to: int) -> int {
    let start = if p.t * 1000 - p.dt > from { p.t * 1000 - p.dt } else { from };
    let end = if p.t * 1000 < to { p.t * 1000 } else { to };
    if end > start { end - start } else { 0 }
}

/// An interval adds to a window its power for the time that it shares with the
/// span, and that time; without a reading it adds nothing.
pub proof fn windows_take_the_shared_part(w: Window, p: Point, from: int, to: int)
    requires
        p.w is Some ==> w.joules + p.w->0 * inside(p, from, to) <= u128::MAX,
        w.seconds + inside(p, from, to) <= u128::MAX,
    ensures
        p.w is None ==> widened(w, p, from, to) == w,
        p.w is Some ==> widened(w, p, from, to).joules == w.joules + p.w->0 * inside(p, from, to),
        p.w is Some ==> widened(w, p, from, to).seconds == w.seconds + inside(p, from, to),
        overlap(p, from, to) == inside(p, from, to),
{
    if let Some(x) = p.w {
        let o = inside(p, from, to);
        assert(x * o >= 0) by (nonlinear_arith)
            requires
                x >= 0,
                o >= 0,
        ;
    }
}

/// What an interval shares with two adjoining spans is what it shares with both
/// together.
pub proof fn adjoining_spans_share_an_interval(p: Point, from: int, middle: int, to: int)
    requires
        from <= middle <= to,
    ensures
        overlap(p, from, middle) + overlap(p, middle, to) == overlap(p, from, to),
        0 <= overlap(p, from, to) <= p.dt,
{
}

/// The mean of a window times its observed time is its energy, to less than
/// that time; without observed time there is no mean.
pub proof fn a_mean_is_energy_over_time(w: Window)
    ensures
        w.mean_of() is None <==> w.seconds == 0,
        w.mean_of() is Some ==> w.mean_of()->0 * w.seconds <= w.joules < (w.mean_of()->0 + 1)
            * w.seconds,
{
    if w.seconds > 0 {
        let (j, t) = (w.joules as int, w.seconds as int);
        let q = j / t;
        assert(q * t <= j < (q + 1) * t && 0 <= q <= j) by (nonlinear_arith)
            requires
                t > 0,
                j >= 0,
                q == j / t,
        ;
    }
}

/// The energy of the known intervals inside a span.
pub open spec fn known_energy(points: Seq<Point>, from: int, to: int) -> int
    decreases points.len(),
{
    if points.len() == 0 {
        0
    } else {
        known_energy(points.drop_last(), from, to) + match points.last().w {
            Some(w) => w * inside(points.last(), from, to),
            None => 0,
        }
    }
}

/// The time inside a span for which the power is known.
pub open spec fn known_time(points: Seq<Point>, from: int, to: int) -> int
    decreases points.len(),
{
    if points.len() == 0 {
        0
    } else {
        known_time(points.drop_last(), from, to) + match points.last().w {
            Some(_) => inside(points.last(), from, to),
            None => 0,
        }
    }
}

proof fn windows_sum_what_is_known(points: Seq<Point>, from: int, to: int)
    ensures
        known_energy(points, from, to) >= 0,
        known_time(points, from, to) >= 0,
        window_over(points, from, to).joules == if known_energy(points, from, to) > u128::MAX {
            u128::MAX as int
        } else {
            known_energy(points, from, to)
        },
        window_over(points, from, to).seconds == if known_time(points, from, to) > u128::MAX {
            u128::MAX as int
        } else {
            known_time(points, from, to)
        },
    decreases points.len(),
{
    if points.len() > 0 {
        windows_sum_what_is_known(points.drop_last(), from, to);
        if let Some(w) = points.last().w {
            let o = inside(points.last(), from, to);
            assert(w * o >= 0) by (nonlinear_arith)
                requires
                    w >= 0,
                    o >= 0,
            ;
        }
    }
}

/// The rolling mean is the energy of the last sixty seconds over the time for
/// which it is known; without such time it is unknown.
pub proof fn the_rolling_mean_is_of_the_last_minute(l: LedgerView)
    requires
        known_energy(l.history, l.elapsed * 1000 - 60_000_000_000, l.elapsed * 1000) <= u128::MAX,
        known_time(l.history, l.elapsed * 1000 - 60_000_000_000, l.elapsed * 1000) <= u128::MAX,
    ensures
        ({
            let from = l.elapsed * 1000 - 60_000_000_000;
            let to = l.elapsed * 1000;
            let e = known_energy(l.history, from, to);
            let t = known_time(l.history, from, to);
            &&& rolling_of(l) is None <==> t == 0
            &&& t > 0 ==> rolling_of(l)->0 * t <= e < (rolling_of(l)->0 + 1) * t
        }),
{
    let from = l.elapsed * 1000 - 60_000_000_000;
    let to = l.elapsed * 1000;
    windows_sum_what_is_known(l.history, from, to);
    a_mean_is_energy_over_time(window_over(l.history, from, to));
}

/// A change is compared with the sixty seconds before it: its window holds the
/// known energy and time of the history inside them, and nothing after it yet.
pub proof fn a_change_starts_with_the_minute_before(l: LedgerView, timestamp: i64, t: i64, label: String)
    requires
        known_energy(l.history, t * 1000 - 60_000_000_000, t * 1000) <= u128::MAX,
        known_time(l.history, t * 1000 - 60_000_000_000, t * 1000) <= u128::MAX,
    ensures
        ({
            let c = applied(l, Record::Marker { timestamp, elapsed_s: t, label }).comparisons.last();
            &&& c.t == t
            &&& c.label == label
            &&& c.before.joules == known_energy(l.history, t * 1000 - 60_000_000_000, t * 1000)
            &&& c.before.seconds == known_time(l.history, t * 1000 - 60_000_000_000, t * 1000)
            &&& c.after.joules == 0
            &&& c.after.seconds == 0
        }),
{
    windows_sum_what_is_known(l.history, t * 1000 - 60_000_000_000, t * 1000);
}

/// A sample that follows a change adds to the window after the latest change
/// what its interval has between fifteen and seventy-five seconds after it, and
/// to the window before any change that it follows what it has in the sixty
/// seconds before that. No other comparison changes.
pub proof fn comparisons_take_their_minutes(cs: Seq<Comparison>, p: Point, i: int)
    requires
        0 <= i < cs.len(),
        p.w is Some,
        cs[i].before.joules + p.w->0 * p.dt <= u128::MAX,
        cs[i].before.seconds + p.dt <= u128::MAX,
        cs[i].after.joules + p.w->0 * p.dt <= u128::MAX,
        cs[i].after.seconds + p.dt <= u128::MAX,
    ensures
        ({
            let c = cs[i];
            let r = compared(cs, p)[i];
            let late = inside(p, c.t * 1000 + 15_000_000_000, c.t * 1000 + 75_000_000_000);
            let early = inside(p, c.t * 1000 - 60_000_000_000, c.t * 1000);
            &&& compared(cs, p).len() == cs.len()
            &&& r.t == c.t
            &&& r.label == c.label
            &&& i == cs.len() - 1 ==> r.after.seconds == c.after.seconds + late && r.after.joules
                == c.after.joules + p.w->0 * late
            &&& i < cs.len() - 1 ==> r.after == c.after
            &&& p.t > c.t ==> r.before.seconds == c.before.seconds + early && r.before.joules
                == c.before.joules + p.w->0 * early
            &&& p.t <= c.t ==> r.before == c.before
        }),
{
    let c = cs[i];
    let late = inside(p, c.t * 1000 + 15_000_000_000, c.t * 1000 + 75_000_000_000);
    let early = inside(p, c.t * 1000 - 60_000_000_000, c.t * 1000);
    let w = p.w->0;
    assert(w * late <= w * p.dt && w * early <= w * p.dt) by (nonlinear_arith)
        requires
            0 <= late <= p.dt,
            0 <= early <= p.dt,
            w >= 0,
    ;
    windows_take_the_shared_part(c.after, p, c.t * 1000 + 15_000_000_000, c.t * 1000 + 75_000_000_000);
    windows_take_the_shared_part(c.before, p, c.t * 1000 - 60_000_000_000, c.t * 1000);
}

/// A comparison states powers only where both of its windows observed at least
/// fifty-nine seconds.
pub proof fn powers_need_coverage_on_both_sides(c: Comparison)
    ensures
        c.is_ready() <==> c.before.seconds >= 59_000_000_000 && c.after.seconds >= 59_000_000_000,
{
}

/// The text states the mean powers `from` and `to`, in nanowatts, as `a` and
/// `b`, and their difference as `d`.
pub open spec fn states_powers(
    c: Comparison,
    from: int,
    to: int,
    a: Seq<char>,
    b: Seq<char>,
    d: Seq<char>,
) -> bool {
    &&& from * c.before.seconds <= c.before.joules < (from + 1) * c.before.seconds
    &&& to * c.after.seconds <= c.after.joules < (to + 1) * c.after.seconds
    &&& writes(a, from, 100_000_000, 1)
    &&& writes(b, to, 100_000_000, 1)
    &&& to < from ==> writes(d, from - to, 100_000_000, 1)
    &&& to >= from ==> writes(d, to - from, 100_000_000, 1)
    &&& c.text() == c.label@ + ": "@ + a + " → "@ + b + " W ("@ + (if to < from {
        "-"@
    } else {
        "+"@
    } + d) + " W). Association; repeat to confirm."@
}

/// The text states the seconds of coverage `before` and `after` as `a` and `b`.
pub open spec fn states_coverage(
    c: Comparison,
    before: int,
    after: int,
    a: Seq<char>,
    b: Seq<char>,
) -> bool {
    &&& writes(a, before, 1_000_000_000, 0)
    &&& writes(b, after, 1_000_000_000, 0)
    &&& c.text() == c.label@ + ": battery coverage before "@ + a + "/60 s, after "@ + b
        + "/60 s (15 s settling)."@
}

/// A time, or a minute if it is longer.
pub open spec fn up_to_a_minute(seconds: u128) -> int {
    if seconds < 60_000_000_000 {
        seconds as int
    } else {
        60_000_000_000
    }
}

/// What a comparison says: with enough coverage the mean power before, after
/// and its change, in watts with one decimal; otherwise whole seconds of
/// coverage on each side, a minute at most.
pub proof fn comparisons_say_what_was_observed(c: Comparison)
    ensures
        c.before.seconds >= 59_000_000_000 && c.after.seconds >= 59_000_000_000 ==> exists|
            from: int,
            to: int,
            a: Seq<char>,
            b: Seq<char>,
            d: Seq<char>,
        |
            states_powers(c, from, to, a, b, d),
        c.before.seconds < 59_000_000_000 || c.after.seconds < 59_000_000_000 ==> exists|
            a: Seq<char>,
            b: Seq<char>,
        |
            states_coverage(
                c,
                up_to_a_minute(c.before.seconds),
                up_to_a_minute(c.after.seconds),
                a,
                b,
            ),
{
    let x = up_to_a_minute(c.before.seconds);
    let y = up_to_a_minute(c.after.seconds);
    if c.is_ready() {
        a_mean_is_energy_over_time(c.before);
        a_mean_is_energy_over_time(c.after);
        let from = c.before.mean_of()->0;
        let to = c.after.mean_of()->0;
        decimals_write_the_nearest(from as nat, 100_000_000, 1);
        decimals_write_the_nearest(to as nat, 100_000_000, 1);
        let d = if to < from { from - to } else { to - from };
        decimals_write_the_nearest(d as nat, 100_000_000, 1);
        assert(states_powers(
            c,
            from as int,
            to as int,
            fixed(from as nat, 100_000_000, 1),
            fixed(to as nat, 100_000_000, 1),
            fixed(d as nat, 100_000_000, 1),
        ));
    } else {
        decimals_write_the_nearest(x as nat, 1_000_000_000, 0);
        decimals_write_the_nearest(y as nat, 1_000_000_000, 0);
        assert(states_coverage(
            c,
            x,
            y,
            fixed(x as nat, 1_000_000_000, 0),
            fixed(y as nat, 1_000_000_000, 0),
        ));
    }
}

/// A process inside an application bundle belongs to the outermost one, by the
/// name of its directory: what stands between the last slash and the first
/// `.app/`.
pub proof fn processes_belong_to_the_outermost_bundle(
    p: ProcRow,
    path: String,
    dir: Seq<char>,
    name: Seq<char>,
    rest: Seq<char>,
)
    requires
        p.executable == Some(path),
        path@ == dir + "/"@ + name + ".app/"@ + rest,
        forall|i: int| 0 <= i < name.len() ==> name[i] != '/',
        forall|i: int|
            0 <= i < dir.len() + 1 + name.len() && i + 5 <= path@.len() ==> #[trigger] path@.subrange(
                i,
                i + 5,
            ) != ".app/"@,
    ensures
        group_of(p) == name,
{
    let front = dir + "/"@ + name;
    let end = front.len() as int;
    reveal_strlit(".app/");
    reveal_strlit("/");
    assert(".app/"@.len() == 5);
    assert(path@.subrange(end, end + 5) =~= ".app/"@);
    first_from_is_least(path@, ".app/"@, 0);
    assert(occurs_at(path@, ".app/"@, end));
    let at = first_from(path@, ".app/"@, 0)->0;
    assert(at == end) by {
        if at < end {
            assert(path@.subrange(at, at + 5) == ".app/"@);
        }
    }
    assert(path@.take(end) =~= front);
    assert("/"@ =~= seq!['/']);
    assert(front =~= dir + seq!['/'] + name);
    crate::evidence::pieces_of_a_join(dir, name);
    a_piece_without_slashes(name);
    assert((pieces(dir, '/') + pieces(name, '/')).last() == name);
}

/// A text without slashes is one piece.
pub proof fn a_piece_without_slashes(s: Seq<char>)
    requires
        forall|i: int| 0 <= i < s.len() ==> s[i] != '/',
    ensures
        pieces(s, '/') == seq![s],
    decreases s.len(),
{
    if s.len() == 0 {
        assert(s =~= Seq::empty());
    } else {
        a_piece_without_slashes(s.drop_last());
        assert(s.drop_last().push(s.last()) =~= s);
        let rest = pieces(s.drop_last(), '/');
        assert(rest.last() == s.drop_last());
        assert(s.last() == s[s.len() - 1]);
        assert(rest.drop_last().push(rest.last().push(s.last())) =~= seq![s]);
    }
}

/// Any other process belongs to the group of its own name.
pub proof fn other_processes_stand_for_themselves(p: ProcRow)
    requires
        match p.executable {
            Some(path) => forall|i: int|
                0 <= i && i + 5 <= path@.len() ==> #[trigger] path@.subrange(i, i + 5) != ".app/"@,
            None => true,
        },
    ensures
        group_of(p) == p.name@,
{
    if let Some(path) = p.executable {
        reveal_strlit(".app/");
        first_from_is_least(path@, ".app/"@, 0);
        if let Some(i) = first_from(path@, ".app/"@, 0) {
            assert(path@.subrange(i, i + 5) == ".app/"@);
        }
    }
}

/// A reading of a row, or nothing.
pub open spec fn read(n: Option<u64>) -> int {
    match n {
        Some(v) => v as int,
        None => 0,
    }
}

/// A process with a CPU reading is charged to its group, for each of its rates
/// the rate times the interval and one sample; every other group keeps what it
/// has. A process without one changes nothing.
pub proof fn a_process_is_charged_what_it_used(groups: Seq<ConsumerView>, p: ProcRow, dt: u64)
    ensures
        ({
            let r = with_row(groups, p, dt);
            let i = place(groups, group_of(p));
            let old_c = if i < groups.len() {
                groups[i]
            } else {
                ConsumerView {
                    name: group_of(p),
                    cpu_j: 0,
                    cpu_s: 0,
                    wakeups: 0,
                    disk_bytes: 0,
                    samples: 0,
                    energy_samples: 0,
                }
            };
            &&& p.cpu_percent is None && p.energy_mw is None ==> r == groups
            &&& p.cpu_percent is Some || p.energy_mw is Some ==> {
                let c = r[i];
                let energy = old_c.cpu_j + read(p.energy_mw) * dt;
                let time = old_c.cpu_s + read(p.cpu_percent) * dt;
                let wakes = old_c.wakeups + read(p.wakeups_per_s) * dt;
                let disk = old_c.disk_bytes + (read(p.disk_read_bps) + read(p.disk_write_bps))
                    * dt;
                &&& 0 <= i <= groups.len()
                &&& r.len() == if i < groups.len() { groups.len() } else { groups.len() + 1 }
                &&& i < groups.len() ==> groups[i].name == group_of(p)
                &&& c.name == group_of(p)
                &&& energy <= u128::MAX ==> c.cpu_j == energy
                &&& time <= u128::MAX ==> c.cpu_s == time
                &&& wakes <= u128::MAX ==> c.wakeups == wakes
                &&& disk <= u128::MAX ==> c.disk_bytes == disk
                &&& old_c.samples < u64::MAX ==> c.samples == old_c.samples + 1
                &&& old_c.energy_samples < u64::MAX ==> c.energy_samples == old_c.energy_samples
                    + (if p.energy_mw is Some { 1int } else { 0int })
                &&& forall|k: int| 0 <= k < groups.len() && k != i ==> #[trigger] r[k] == groups[k]
            }
        }),
{
    place_is_first(groups, group_of(p));
    let e = read(p.energy_mw);
    let c = read(p.cpu_percent);
    let k = read(p.wakeups_per_s);
    let d = read(p.disk_read_bps) + read(p.disk_write_bps);
    assert(e * dt >= 0 && c * dt >= 0 && k * dt >= 0 && d * dt >= 0) by (nonlinear_arith)
        requires
            e >= 0,
            c >= 0,
            k >= 0,
            d >= 0,
            dt >= 0,
    ;
}

/// A group keeps its place: the one with a name is the first of that name.
pub proof fn groups_are_found_by_name(groups: Seq<ConsumerView>, name: Seq<char>, i: int)
    requires
        0 <= i < groups.len(),
        groups[i].name == name,
        forall|k: int| 0 <= k < i ==> (#[trigger] groups[k]).name != name,
    ensures
        place(groups, name) == i,
{
    place_is_first(groups, name);
    let p = place(groups, name);
    if i < p {
        assert(groups[i].name != name);
    }
}

/// The machine's own measurement counts between two samples that have it, on
/// external power too: the mean of both ends, in microwatts, times the
/// interval.
pub proof fn system_power_is_integrated(
    w: Window,
    previous: Option<Sample>,
    gap: bool,
    s: Sample,
)
    ensures
        ({
            let measures = |x: Sample|
                x.thermal is Some && x.thermal->0.pstr_w is Some && x.thermal->0.pstr_w->0 >= 0;
            let r = system_widened(w, previous, gap, s);
            let counts = !gap && previous is Some && measures(previous->0) && measures(s);
            let energy = w.joules + (previous->0.thermal->0.pstr_w->0 + s.thermal->0.pstr_w->0)
                * 500 * s.dt_ns;
            &&& !counts ==> r == w
            &&& counts && energy <= u128::MAX ==> r.joules == energy
            &&& counts && w.seconds + s.dt_ns <= u128::MAX ==> r.seconds == w.seconds + s.dt_ns
            &&& system_of(s) is Some <==> measures(s)
            &&& measures(s) ==> system_of(s)->0 == s.thermal->0.pstr_w->0
        }),
{
    if let Some(p) = previous {
        if let (Some(a), Some(b)) = (system_of(p), system_of(s)) {
            let x = (a + b) * 500;
            assert(x * s.dt_ns >= 0) by (nonlinear_arith)
                requires
                    x >= 0,
                    s.dt_ns >= 0,
            ;
        }
    }
}

/// Nothing younger than five minutes leaves the histories, and while the front
/// is older it goes.
pub proof fn histories_reach_five_minutes_back(
    h: Seq<Point>,
    g: Seq<(i64, u64)>,
    elapsed: i64,
)
    ensures
        exists|n: int|
            0 <= n <= h.len() && pruned(h, elapsed) == #[trigger] h.skip(n) && (forall|i: int|
                0 <= i < n ==> (#[trigger] h[i]).t < elapsed - 300_000_000) && (n < h.len()
                ==> h[n].t >= elapsed - 300_000_000),
        exists|n: int|
            0 <= n <= g.len() && system_pruned(g, elapsed) == #[trigger] g.skip(n) && (forall|i: int|
                0 <= i < n ==> (#[trigger] g[i]).0 < elapsed - 300_000_000) && (n < g.len()
                ==> g[n].0 >= elapsed - 300_000_000),
{
    let a = stale_points(h, elapsed);
    let b = stale_readings(g, elapsed);
    assert(pruned(h, elapsed) == h.skip(a));
    assert(system_pruned(g, elapsed) == g.skip(b));
}

proof fn stale_points(h: Seq<Point>, elapsed: i64) -> (n: int)
    ensures
        0 <= n <= h.len(),
        pruned(h, elapsed) == h.skip(n),
        forall|i: int| 0 <= i < n ==> (#[trigger] h[i]).t < elapsed - 300_000_000,
        n < h.len() ==> h[n].t >= elapsed - 300_000_000,
    decreases h.len(),
{
    if h.len() > 0 && h[0].t < elapsed - 300_000_000 {
        let n = stale_points(h.skip(1), elapsed);
        assert(h.skip(1).skip(n) =~= h.skip(n + 1));
        assert forall|i: int| 0 <= i < n + 1 implies (#[trigger] h[i]).t < elapsed
            - 300_000_000 by {
            if i > 0 {
                assert(h.skip(1)[i - 1] == h[i]);
            }
        }
        n + 1
    } else {
        assert(h.skip(0) =~= h);
        0
    }
}

proof fn stale_readings(h: Seq<(i64, u64)>, elapsed: i64) -> (n: int)
    ensures
        0 <= n <= h.len(),
        system_pruned(h, elapsed) == h.skip(n),
        forall|i: int| 0 <= i < n ==> (#[trigger] h[i]).0 < elapsed - 300_000_000,
        n < h.len() ==> h[n].0 >= elapsed - 300_000_000,
    decreases h.len(),
{
    if h.len() > 0 && h[0].0 < elapsed - 300_000_000 {
        let n = stale_readings(h.skip(1), elapsed);
        assert(h.skip(1).skip(n) =~= h.skip(n + 1));
        assert forall|i: int| 0 <= i < n + 1 implies (#[trigger] h[i]).0 < elapsed
            - 300_000_000 by {
            if i > 0 {
                assert(h.skip(1)[i - 1] == h[i]);
            }
        }
        n + 1
    } else {
        assert(h.skip(0) =~= h);
        0
    }
}

/// What a sample adds to the histories before they are cut: its own interval at
/// the end, with its mean discharge, and its system power where it has one and
/// is no gap.
pub proof fn samples_enter_the_histories(
    l: LedgerView,
    elapsed_s: i64,
    gap: bool,
    sampler_ms: u64,
    s: Sample,
)
    ensures
        ({
            let r = sampled(l, elapsed_s, gap, sampler_ms, s);
            let p = Point { t: elapsed_s, dt: s.dt_ns, w: interval_power(l.latest, gap, s) };
            let power = s.thermal->0.pstr_w->0;
            let measures = s.thermal is Some && s.thermal->0.pstr_w is Some && power >= 0;
            &&& r.history == pruned(l.history.push(p), elapsed_s)
            &&& r.history.len() > 0 && r.history.last() == p
            &&& !gap && measures ==> r.system_history == system_pruned(
                l.system_history.push((elapsed_s, power as u64)),
                elapsed_s,
            )
            &&& gap || !measures ==> r.system_history == system_pruned(l.system_history, elapsed_s)
            &&& r.comparisons == compared(l.comparisons, p)
            &&& r.system_energy == system_widened(l.system_energy, l.latest, gap, s)
        }),
{
    let p = Point { t: elapsed_s, dt: s.dt_ns, w: interval_power(l.latest, gap, s) };
    let h = l.history.push(p);
    let n = stale_points(h, elapsed_s);
    assert(n < h.len()) by {
        if n == h.len() {
            assert(h[h.len() - 1].t < elapsed_s - 300_000_000);
        }
    }
    assert(h.skip(n).last() == h.last());
}

/// A user of the peak is named with its CPU power in watts, two decimals.
pub proof fn peak_users_are_named_with_their_power(p: ProcRow)
    requires
        p.energy_mw is Some,
    ensures
        exists|a: Seq<char>|
            #[trigger] writes(a, p.energy_mw->0 as int, 10_000_000, 2) && user_text(p) == p.name@
                + " "@ + a + " CPU W"@,
{
    decimals_write_the_nearest(p.energy_mw->0 as nat, 10_000_000, 2);
}

/// A bundle at the very beginning of a path is the group too.
pub proof fn a_bundle_may_begin_the_path(
    p: ProcRow,
    path: String,
    name: Seq<char>,
    rest: Seq<char>,
)
    requires
        p.executable == Some(path),
        path@ == name + ".app/"@ + rest,
        forall|i: int| 0 <= i < name.len() ==> name[i] != '/',
        forall|i: int|
            0 <= i < name.len() && i + 5 <= path@.len() ==> #[trigger] path@.subrange(i, i + 5)
                != ".app/"@,
    ensures
        group_of(p) == name,
{
    let end = name.len() as int;
    reveal_strlit(".app/");
    assert(".app/"@.len() == 5);
    assert(path@.subrange(end, end + 5) =~= ".app/"@);
    first_from_is_least(path@, ".app/"@, 0);
    assert(occurs_at(path@, ".app/"@, end));
    let at = first_from(path@, ".app/"@, 0)->0;
    assert(at == end) by {
        if at < end {
            assert(path@.subrange(at, at + 5) == ".app/"@);
        }
    }
    assert(path@.take(end) =~= name);
    a_piece_without_slashes(name);
}

} // verus!
