//! What reports and screens say, in terms of the ledger behind them.

use crate::analysis::{Comparison, Consumer, ConsumerView, Point, Window};
use crate::dashboard::{
    battery_line, battery_of, blockers_in, chip_line, curves_of, drawn, evidence_lines, footer_text,
    gpu_line, heading_text, highest, inner_details, inner_list, known_points, list_of, machine_of,
    megabytes, rolling_text, sampler_line, small_text, target_of, thermal_of, Width,
};
use crate::docker::Container;
use crate::inspection::{owner_of, GuestProcess, Inspection};
use crate::ledger::{consumer_keys, rolling_of, Ledger, LedgerView};
use crate::measured::a_mean_is_energy_over_time;
use crate::notation::{
    decimals_write_the_nearest, ranking_is_descending, signed_decimals_write_the_nearest, writes,
};
use crate::num::{
    digits, fixed, known, known_micro, known_signed, left, right, signed_digits, signed_fixed,
};
use crate::order::{key_of, ranking};
use crate::report::{
    assertions_text, battery_text, changes_text, group_text, groups_text, listed, machines_text,
    notices_text, peak_text, report_text, system_text,
};
use crate::screen::{
    active, active_of, container_row, guest_row, guest_rows, hidden_row, host_rows, now_rows,
    process_row, total_row, total_rows, Tone,
};
use crate::text::{holds, joined, lines_of, pieces, printable, trimmed};
use crate::types::{ProcRow, ThermalPressure};
use crate::ui::{current_rows, latest_rows, row_keys, ViewState};
use vstd::prelude::*;

verus! {

/// The group uses at least as much as the other: more energy, or the same and
/// no less time.
pub open spec fn uses_no_less(a: ConsumerView, b: ConsumerView) -> bool {
    a.cpu_j > b.cpu_j || (a.cpu_j == b.cpu_j && a.cpu_s >= b.cpu_s)
}

/// The places are those of the greatest groups, at most twenty, the greatest
/// first: none that is left out uses more than one of them.
pub open spec fn are_the_greatest(groups: Seq<ConsumerView>, places: Seq<int>) -> bool {
    &&& places.len() == if groups.len() < 20 { groups.len() as int } else { 20 }
    &&& places.no_duplicates()
    &&& forall|p: int| 0 <= p < places.len() ==> 0 <= (#[trigger] places[p]) < groups.len()
    &&& forall|p: int, q: int|
        0 <= p < q < places.len() ==> uses_no_less(
            groups[#[trigger] places[p]],
            groups[#[trigger] places[q]],
        )
    &&& forall|p: int, k: int|
        0 <= p < places.len() && 0 <= k < groups.len() && !places.contains(k) ==> uses_no_less(
            groups[#[trigger] places[p]],
            #[trigger] groups[k],
        )
}

/// The lines of the groups at some places, in that order.
pub open spec fn lines_at(groups: Seq<ConsumerView>, places: Seq<int>) -> Seq<char>
    decreases places.len(),
{
    if places.len() == 0 {
        seq![]
    } else {
        lines_at(groups, places.drop_last()) + group_text(groups[places.last()])
    }
}

proof fn first_ranks(groups: Seq<ConsumerView>, n: int) -> (places: Seq<int>)
    requires
        groups.len() <= usize::MAX,
        0 <= n <= groups.len(),
    ensures
        places.len() == n,
        forall|i: int| 0 <= i < n ==> #[trigger] places[i] == ranking(consumer_keys(groups))[i],
        groups_text(groups, n) == lines_at(groups, places),
    decreases n,
{
    ranking_is_descending(consumer_keys(groups));
    if n == 0 {
        seq![]
    } else {
        let less = first_ranks(groups, n - 1);
        let places = less.push(ranking(consumer_keys(groups))[n - 1] as int);
        assert(places.drop_last() =~= less);
        places
    }
}

/// The report lists the lines of the groups that used most, the greatest first
/// and at most twenty, under their heading and before the coverage.
pub proof fn the_report_lists_the_greatest_users(l: LedgerView)
    requires
        l.groups.len() <= usize::MAX,
    ensures
        exists|places: Seq<int>| #[trigger]
            are_the_greatest(l.groups, places) && report_text(l) == battery_text(l) + system_text(l)
                + peak_text(l) + "\nCPU energy during recording (not whole-app battery energy):\n"@
                + lines_at(l.groups, places) + "\nLatest CPU energy coverage: "@ + digits(
                l.measured_procs as nat,
            ) + "/"@ + digits(l.total_procs as nat)
                + " processes. Missing counters are unknown.\n"@ + changes_text(l.comparisons)
                + assertions_text(l) + machines_text(l.vms) + notices_text(l.notices),
{
    let g = l.groups;
    let keys = consumer_keys(g);
    let order = ranking(keys);
    let n = listed(g);
    ranking_is_descending(keys);
    let places = first_ranks(g, n);
    assert(forall|k: int| 0 <= k < g.len() ==> #[trigger] keys[k] == (g[k].cpu_j, g[k].cpu_s));
    assert forall|p: int, q: int| 0 <= p < q < places.len() implies uses_no_less(
        g[#[trigger] places[p]],
        g[#[trigger] places[q]],
    ) by {
        assert(places[p] == order[p] && places[q] == order[q]);
    }
    assert(places.no_duplicates()) by {
        assert forall|p: int, q: int| 0 <= p < places.len() && 0 <= q < places.len() && p
            != q implies places[p] != places[q] by {
            assert(places[p] == order[p] && places[q] == order[q]);
        }
    }
    assert forall|p: int, k: int|
        0 <= p < places.len() && 0 <= k < g.len() && !places.contains(k) implies uses_no_less(
        g[#[trigger] places[p]],
        #[trigger] g[k],
    ) by {
        crate::order::ranking_holds_every_row(keys, k as usize);
        let q = choose|q: int| 0 <= q < order.len() && order[q] == k as usize;
        if q < n {
            assert(places[q] == k);
        }
        assert(places[p] == order[p]);
        assert(order[p] < g.len() && order[q] < g.len());
    }
    assert forall|p: int| 0 <= p < places.len() implies 0 <= (#[trigger] places[p]) < g.len() by {
        assert(places[p] == order[p]);
    }
    assert(are_the_greatest(g, places));
}

/// The line of a group: its name in a field of thirty, its CPU energy in watt
/// hours with five decimals, or a dash where none was measured, its CPU time in
/// seconds with one and its wakeups.
pub open spec fn states_use(
    c: ConsumerView,
    energy: Seq<char>,
    time: Seq<char>,
    wakeups: Seq<char>,
) -> bool {
    &&& c.energy_samples == 0 ==> energy == "—"@
    &&& c.energy_samples > 0 ==> writes(energy, c.cpu_j as int, 36_000_000_000_000_000, 5)
    &&& writes(time, c.cpu_s as int, 10_000_000_000_000_000, 1)
    &&& writes(wakeups, c.wakeups as int, 1_000_000_000_000_000, 0)
}

/// What the line of a group says.
pub proof fn group_lines_say_what_was_used(c: ConsumerView)
    ensures
        exists|energy: Seq<char>, time: Seq<char>, wakeups: Seq<char>| #[trigger]
            states_use(c, energy, time, wakeups) && group_text(c) == left(c.name, 30) + " "@
                + right(energy, 9) + " CPU Wh  "@ + right(time, 8) + " CPU s  "@ + right(wakeups, 9)
                + " wakeups\n"@,
{
    decimals_write_the_nearest(c.cpu_j as nat, 36_000_000_000_000_000, 5);
    decimals_write_the_nearest(c.cpu_s as nat, 10_000_000_000_000_000, 1);
    decimals_write_the_nearest(c.wakeups as nat, 1_000_000_000_000_000, 0);
    assert(states_use(
        c,
        crate::report::energy_text(c),
        fixed(c.cpu_s as nat, 10_000_000_000_000_000, 1),
        fixed(c.wakeups as nat, 1_000_000_000_000_000, 0),
    ));
}

/// Energy in watt hours with three decimals, seconds, and the mean power of
/// both in watts with one decimal; a dash without observed time.
pub open spec fn states_battery(
    l: LedgerView,
    energy: Seq<char>,
    time: Seq<char>,
    mean: Seq<char>,
    watts: int,
) -> bool {
    &&& writes(energy, l.battery_j as int, 3_600_000_000_000_000_000, 3)
    &&& writes(time, l.battery_seconds as int, 1_000_000_000, 0)
    &&& l.battery_seconds == 0 ==> mean == "—"@
    &&& l.battery_seconds > 0 ==> watts * l.battery_seconds <= l.battery_j < (watts + 1)
        * l.battery_seconds && writes(mean, watts, 100_000_000, 1)
}

/// What the first lines of a report say.
pub proof fn reports_say_what_the_battery_gave(l: LedgerView)
    ensures
        exists|energy: Seq<char>, time: Seq<char>, mean: Seq<char>, watts: int| #[trigger]
            states_battery(l, energy, time, mean, watts) && battery_text(l) == "Recorded "@
                + signed_fixed(l.elapsed as int, 1_000_000, 0) + "s, "@ + digits(l.samples as nat)
                + " samples. "@ + (if l.ended {
                "Clean stop."@
            } else {
                "Live or interrupted recording."@
            }) + "\nBattery: "@ + energy + " Wh / "@ + time + "s observed on battery, mean "@ + mean
                + " W, "@ + digits(l.gaps as nat) + " gaps excluded.\n"@,
{
    let w = Window { joules: l.battery_j, seconds: l.battery_seconds };
    a_mean_is_energy_over_time(w);
    decimals_write_the_nearest(l.battery_j as nat, 3_600_000_000_000_000_000, 3);
    decimals_write_the_nearest(l.battery_seconds as nat, 1_000_000_000, 0);
    let watts = if l.battery_seconds > 0 { w.mean_of()->0 as int } else { 0 };
    decimals_write_the_nearest(watts as nat, 100_000_000, 1);
    assert(states_battery(
        l,
        fixed(l.battery_j as nat, 3_600_000_000_000_000_000, 3),
        fixed(l.battery_seconds as nat, 1_000_000_000, 0),
        known(w.mean_of(), 100_000_000),
        watts,
    ));
}

/// The peak is stated where anything was observed: its watts with one decimal,
/// its second, and its users.
pub proof fn reports_say_when_the_peak_was(l: LedgerView)
    ensures
        l.battery_seconds == 0 ==> peak_text(l) == Seq::<char>::empty(),
        l.battery_seconds > 0 ==> exists|w: Seq<char>| #[trigger]
            writes(w, l.peak_w as int, 100_000_000, 1) && peak_text(l) == "Peak interval: "@ + w
                + " W at +"@ + signed_fixed(l.peak_at as int, 1_000_000, 0)
                + "s. Concurrent CPU users: "@ + l.peak_consumers + "\n"@,
{
    decimals_write_the_nearest(l.peak_w as nat, 100_000_000, 1);
}

/// Seconds, and the mean power over them in watts with one decimal; a dash
/// without any.
pub open spec fn states_system(w: Window, mean: Seq<char>, time: Seq<char>, watts: int) -> bool {
    &&& writes(time, w.seconds as int, 1_000_000_000, 0)
    &&& w.seconds == 0 ==> mean == "—"@
    &&& w.seconds > 0 ==> watts * w.seconds <= w.joules < (watts + 1) * w.seconds && writes(
        mean,
        watts,
        100_000_000,
        1,
    )
}

/// What the line on system power says.
pub proof fn reports_say_what_the_system_drew(l: LedgerView)
    ensures
        exists|mean: Seq<char>, time: Seq<char>, watts: int| #[trigger]
            states_system(l.system_energy, mean, time, watts) && system_text(l)
                == "SMC system power: mean "@ + mean + " W over "@ + time
                + "s (also measured on AC).\n"@,
{
    let w = l.system_energy;
    a_mean_is_energy_over_time(w);
    decimals_write_the_nearest(w.seconds as nat, 1_000_000_000, 0);
    let watts = if w.seconds > 0 { w.mean_of()->0 as int } else { 0 };
    decimals_write_the_nearest(watts as nat, 100_000_000, 1);
    assert(states_system(
        w,
        known(w.mean_of(), 100_000_000),
        fixed(w.seconds as nat, 1_000_000_000, 0),
        watts,
    ));
}

/// Every change has a line with its second and what it says, in order; every
/// inspection its report, every notice its line.
pub proof fn reports_go_through_changes_machines_and_notices(
    cs: Seq<Comparison>,
    c: Comparison,
    vms: Seq<Inspection>,
    v: Inspection,
    ns: Seq<String>,
    n: String,
)
    ensures
        changes_text(seq![]) == Seq::<char>::empty(),
        changes_text(cs.push(c)) == changes_text(cs) + "\nChange +"@ + signed_fixed(
            c.t as int,
            1_000_000,
            0,
        ) + "s: "@ + c.text() + "\n"@,
        machines_text(seq![]) == Seq::<char>::empty(),
        machines_text(vms.push(v)) == machines_text(vms) + "\nLatest VM inspection (Unix "@
            + signed_fixed(v.finished_at as int, 1_000_000, 0) + "):\n"@ + v.text(),
        notices_text(seq![]) == Seq::<char>::empty(),
        notices_text(ns.push(n)) == notices_text(ns) + "Notice: "@ + n@ + "\n"@,
{
    assert(cs.push(c).drop_last() =~= cs);
    assert(vms.push(v).drop_last() =~= vms);
    assert(ns.push(n).drop_last() =~= ns);
}

/// Processes are listed by measured energy, then by CPU use, the greatest
/// first; one without a reading comes after all that have it. Every process of
/// the latest sample is listed once.
pub proof fn processes_are_listed_by_use(l: LedgerView)
    requires
        latest_rows(l).len() <= usize::MAX,
    ensures
        current_rows(l).len() == latest_rows(l).len(),
        l.latest is Some ==> latest_rows(l) == l.latest->0.procs@,
        l.latest is None ==> latest_rows(l).len() == 0,
        forall|i: int, j: int|
            0 <= i < j < current_rows(l).len() ==> {
                let a = #[trigger] current_rows(l)[i];
                let b = #[trigger] current_rows(l)[j];
                let same = a.energy_mw == b.energy_mw;
                &&& b.energy_mw is Some ==> a.energy_mw is Some && a.energy_mw->0 >= b.energy_mw->0
                &&& same && b.cpu_percent is Some ==> a.cpu_percent is Some && a.cpu_percent->0
                    >= b.cpu_percent->0
            },
        forall|k: int|
            0 <= k < latest_rows(l).len() ==> current_rows(l).contains(#[trigger] latest_rows(l)[k]),
{
    let rows = latest_rows(l);
    let keys = row_keys(rows);
    let order = ranking(keys);
    ranking_is_descending(keys);
    assert forall|i: int, j: int| 0 <= i < j < current_rows(l).len() implies {
        let a = #[trigger] current_rows(l)[i];
        let b = #[trigger] current_rows(l)[j];
        let same = a.energy_mw == b.energy_mw;
        &&& b.energy_mw is Some ==> a.energy_mw is Some && a.energy_mw->0 >= b.energy_mw->0
        &&& same && b.cpu_percent is Some ==> a.cpu_percent is Some && a.cpu_percent->0
            >= b.cpu_percent->0
    } by {
        let a = rows[order[i] as int];
        let b = rows[order[j] as int];
        assert(order[i] < rows.len() && order[j] < rows.len());
        assert(keys[order[i] as int] == (key_of(a.energy_mw), key_of(a.cpu_percent)));
        assert(keys[order[j] as int] == (key_of(b.energy_mw), key_of(b.cpu_percent)));
    }
    assert forall|k: int| 0 <= k < rows.len() implies current_rows(l).contains(
        #[trigger] latest_rows(l)[k],
    ) by {
        crate::order::ranking_holds_every_row(keys, k as usize);
        let q = choose|q: int| 0 <= q < order.len() && order[q] == k as usize;
        assert(current_rows(l)[q] == rows[k]);
    }
}

/// The row of a process: its number, its name without control characters and
/// with a mark if it is the recorder, its CPU power in watts, its CPU use in
/// percent, its wakeups and its memory in mebibytes, each with one decimal or a
/// dash.
pub proof fn process_rows_say_what_was_measured(p: ProcRow, recorder: u32)
    ensures
        ({
            let c = process_row(p, recorder).cells;
            let own = (p.pid >= 0 && p.pid == recorder) || (p.pid < 0 && p.pid + 4294967296
                == recorder);
            &&& c.len() == 6
            &&& c[0] == signed_digits(p.pid as int)
            &&& own ==> c[1] == printable(p.name@) + " [recorder]"@
            &&& !own ==> c[1] == printable(p.name@)
            &&& p.energy_mw is Some ==> writes(c[2], p.energy_mw->0 as int, 100_000_000, 1)
            &&& p.cpu_percent is Some ==> writes(c[3], p.cpu_percent->0 as int, 100_000, 1)
            &&& p.wakeups_per_s is Some ==> writes(c[4], p.wakeups_per_s->0 as int, 100_000, 1)
            &&& p.footprint_bytes is Some ==> writes(
                c[5],
                p.footprint_bytes->0 * 10,
                1_048_576,
                1,
            )
            &&& p.energy_mw is None ==> c[2] == "—"@
            &&& p.cpu_percent is None ==> c[3] == "—"@
            &&& p.wakeups_per_s is None ==> c[4] == "—"@
            &&& p.footprint_bytes is None ==> c[5] == "—"@
            &&& process_row(p, recorder).tone == Tone::Host
        }),
{
    reveal_strlit("");
    assert(printable(p.name@) + ""@ =~= printable(p.name@));
    decimals_write_the_nearest(crate::analysis::or_zero(p.energy_mw) as nat, 100_000_000, 1);
    decimals_write_the_nearest(crate::analysis::or_zero(p.cpu_percent) as nat, 100_000, 1);
    decimals_write_the_nearest(crate::analysis::or_zero(p.wakeups_per_s) as nat, 100_000, 1);
    decimals_write_the_nearest(
        (crate::analysis::or_zero(p.footprint_bytes) * 10) as nat,
        1_048_576,
        1,
    );
}

/// The row of a group: its name, energy in watt hours, time in seconds, wakeups
/// and disk traffic in megabytes.
pub proof fn total_rows_say_what_was_used(c: ConsumerView)
    ensures
        ({
            let r = total_row(c).cells;
            &&& r.len() == 5
            &&& r[0] == printable(c.name)
            &&& c.energy_samples == 0 ==> r[1] == "—"@
            &&& c.energy_samples > 0 ==> writes(r[1], c.cpu_j as int, 36_000_000_000_000_000, 5)
            &&& writes(r[2], c.cpu_s as int, 10_000_000_000_000_000, 1)
            &&& writes(r[3], c.wakeups as int, 1_000_000_000_000_000, 0)
            &&& writes(r[4], c.disk_bytes as int, 100_000_000_000_000_000_000, 1)
        }),
{
    decimals_write_the_nearest(c.cpu_j as nat, 36_000_000_000_000_000, 5);
    decimals_write_the_nearest(c.cpu_s as nat, 10_000_000_000_000_000, 1);
    decimals_write_the_nearest(c.wakeups as nat, 1_000_000_000_000_000, 0);
    decimals_write_the_nearest(c.disk_bytes as nat, 100_000_000_000_000_000_000, 1);
}

/// Groups are shown by use as in the report, all of them.
pub proof fn groups_are_shown_by_use(l: LedgerView)
    requires
        l.groups.len() <= usize::MAX,
    ensures
        exists|places: Seq<int>|
            {
                &&& #[trigger] places.len() == l.groups.len()
                &&& places.no_duplicates()
                &&& forall|p: int| 0 <= p < places.len() ==> 0 <= (#[trigger] places[p])
                    < l.groups.len()
                &&& forall|p: int, q: int|
                    0 <= p < q < places.len() ==> uses_no_less(
                        l.groups[#[trigger] places[p]],
                        l.groups[#[trigger] places[q]],
                    )
                &&& total_rows(l) == Seq::new(
                    places.len(),
                    |i: int| total_row(l.groups[places[i]]),
                )
            },
{
    let g = l.groups;
    let keys = consumer_keys(g);
    let order = ranking(keys);
    ranking_is_descending(keys);
    let places = Seq::new(order.len(), |i: int| order[i] as int);
    assert(forall|k: int| 0 <= k < g.len() ==> #[trigger] keys[k] == (g[k].cpu_j, g[k].cpu_s));
    assert forall|p: int, q: int| 0 <= p < q < places.len() implies uses_no_less(
        g[#[trigger] places[p]],
        g[#[trigger] places[q]],
    ) by {
        assert(order[p] < g.len() && order[q] < g.len());
    }
    assert(places.no_duplicates()) by {
        assert forall|p: int, q: int| 0 <= p < places.len() && 0 <= q < places.len() && p
            != q implies places[p] != places[q] by {
            assert(order[p] != order[q]);
        }
    }
    assert(total_rows(l) =~= Seq::new(places.len(), |i: int| total_row(g[places[i]])));
    assert(places.len() == g.len());
}

/// Guest rows: a guest process is active from one percent of a CPU on; its row
/// has its name, its CPU use and its memory. A container's row has its name,
/// its CPU use or a dash, and its memory. Idle processes are one number.
pub proof fn guest_rows_say_what_was_found(p: GuestProcess, c: Container, n: nat)
    ensures
        active(p) <==> p.cpu_percent >= 1_000_000,
        ({
            let r = guest_row(p).cells;
            &&& r.len() == 6
            &&& r[1] == "    ↳ "@ + printable(p.name@)
            &&& r[2] == "Linux"@
            &&& writes(r[3], p.cpu_percent as int, 100_000, 1)
            &&& writes(r[5], p.rss_bytes * 10, 1_048_576, 1)
            &&& guest_row(p).tone == Tone::Guest
        }),
        ({
            let r = container_row(c).cells;
            &&& r.len() == 6
            &&& r[1] == "  ↳ container "@ + printable(c.name@)
            &&& r[2] == "guest"@
            &&& c.cpu_percent is None ==> r[3] == "—"@
            &&& c.cpu_percent is Some ==> writes(r[3], c.cpu_percent->0 as int, 100_000, 1)
            &&& r[5] == printable(c.memory@)
            &&& container_row(c).tone == Tone::Container
        }),
        hidden_row(n as int).cells[1] == "    ↳ "@ + digits(n)
            + " idle Linux processes hidden (<1% CPU)"@,
        hidden_row(n as int).tone == Tone::Hidden,
{
    decimals_write_the_nearest(p.cpu_percent as nat, 100_000, 1);
    decimals_write_the_nearest((p.rss_bytes * 10) as nat, 1_048_576, 1);
    decimals_write_the_nearest(crate::analysis::or_zero(c.cpu_percent) as nat, 100_000, 1);
}

/// Under the row of a process stand the rows of the inspection of that very
/// process, containers before guest processes, and under no other.
pub proof fn machines_expand_under_their_process(ps: Seq<ProcRow>, p: ProcRow, l: LedgerView, k: int)
    requires
        0 <= k <= l.vms.len(),
        forall|i: int| 0 <= i < k ==> (#[trigger] l.vms[i]).pid != p.pid,
        k < l.vms.len() ==> l.vms[k].pid == p.pid,
    ensures
        now_rows(seq![], l).len() == 0,
        now_rows(ps.push(p), l) == now_rows(ps, l) + host_rows(p, l),
        k == l.vms.len() ==> host_rows(p, l) == seq![process_row(p, l.recorder_pid)],
        k < l.vms.len() ==> host_rows(p, l) == seq![process_row(p, l.recorder_pid)] + (match
        l.vms[k].containers {
            Some(cs) => Seq::new(cs@.len(), |i: int| container_row(cs@[i])),
            None => seq![],
        } + match l.vms[k].guest {
            Some(g) => guest_rows(g.processes@),
            None => seq![],
        }),
{
    crate::analysis::seat_is_first(l.vms, p.pid);
    let s = crate::analysis::seat(l.vms, p.pid);
    assert(s == k) by {
        if s < k {
            assert(l.vms[s].pid != p.pid);
        }
        if k < s {
            assert(l.vms[k].pid != p.pid);
        }
    }
    assert(ps.push(p).drop_last() =~= ps);
    if k == l.vms.len() {
        assert(host_rows(p, l) =~= seq![process_row(p, l.recorder_pid)]);
    } else {
        if let Some(cs) = l.vms[k].containers {
            assert(crate::screen::container_rows(cs@) =~= Seq::new(
                cs@.len(),
                |i: int| container_row(cs@[i]),
            ));
        }
    }
}

/// The mean of the last minute in watts, the charge in percent and the system
/// power in watts, each with one decimal, or a dash where it is unknown.
pub open spec fn states_machine(
    l: LedgerView,
    mean: Seq<char>,
    charge: Seq<char>,
    system: Seq<char>,
) -> bool {
    &&& match rolling_of(l) {
        Some(w) => writes(mean, w as int, 100_000_000, 1),
        None => mean == "—"@,
    }
    &&& match l.latest {
        Some(s) => {
            &&& match s.battery {
                Some(b) => b.soc_percent >= 0 ==> writes(charge, b.soc_percent as int, 100_000, 1),
                None => charge == "—"@,
            }
            &&& match s.thermal {
                Some(t) => match t.pstr_w {
                    Some(w) => w >= 0 ==> writes(system, w as int, 100_000, 1),
                    None => system == "—"@,
                },
                None => system == "—"@,
            }
        },
        None => charge == "—"@ && system == "—"@,
    }
}

/// What the first line over the table says of the battery and the system.
pub proof fn machine_lines_say_what_is_known(l: LedgerView)
    ensures
        exists|mean: Seq<char>, charge: Seq<char>, system: Seq<char>| #[trigger]
            states_machine(l, mean, charge, system) && battery_line(l) == "Battery "@ + mean
                + " W (60s) · "@ + charge + "% · "@ + (match l.latest {
                Some(s) => match s.battery {
                    Some(b) => if b.external_connected {
                        "AC connected"@
                    } else {
                        "on battery"@
                    },
                    None => "battery unavailable"@,
                },
                None => "battery unavailable"@,
            }) + " · SMC system "@ + system + " W"@,
{
    let mean = rolling_text(l);
    let charge = match battery_of(l) {
        Some(b) => known_signed(Some(b.soc_percent)),
        None => "—"@,
    };
    let system = match thermal_of(l) {
        Some(t) => known_signed(t.pstr_w),
        None => "—"@,
    };
    if let Some(w) = rolling_of(l) {
        decimals_write_the_nearest(w as nat, 100_000_000, 1);
    }
    if let Some(b) = battery_of(l) {
        signed_decimals_write_the_nearest(b.soc_percent as int, 100_000, 1);
    }
    if let Some(t) = thermal_of(l) {
        if let Some(w) = t.pstr_w {
            signed_decimals_write_the_nearest(w as int, 100_000, 1);
        }
    }
    assert(states_machine(l, mean, charge, system));
}

/// The chart shows every interval with a known power, and the power axis ends
/// at the greatest power shown or at ten watts.
pub proof fn curves_show_what_is_known(h: Seq<Point>, p: Point, v: Seq<(i64, u64)>, unit: int, floor: int)
    requires
        unit > 0,
    ensures
        known_points(seq![]).len() == 0,
        p.w is Some ==> known_points(h.push(p)) == known_points(h).push((p.t, p.w->0)),
        p.w is None ==> known_points(h.push(p)) == known_points(h),
        highest(v, unit, floor) >= floor,
        forall|i: int| 0 <= i < v.len() ==> (#[trigger] v[i]).1 * unit <= highest(v, unit, floor),
        highest(v, unit, floor) == floor || exists|i: int|
            0 <= i < v.len() && (#[trigger] v[i]).1 * unit == highest(v, unit, floor),
    decreases v.len(),
{
    assert(h.push(p).drop_last() =~= h);
    if v.len() > 0 {
        let less = v.drop_last();
        curves_show_what_is_known(h, p, less, unit, floor);
        assert forall|i: int| 0 <= i < v.len() implies (#[trigger] v[i]).1 * unit <= highest(
            v,
            unit,
            floor,
        ) by {
            if i < less.len() {
                assert(less[i] == v[i]);
            }
        }
        if highest(v, unit, floor) != floor {
            if v.last().1 * unit == highest(v, unit, floor) {
                assert(v[v.len() - 1].1 * unit == highest(v, unit, floor));
            } else {
                let i = choose|i: int|
                    0 <= i < less.len() && (#[trigger] less[i]).1 * unit == highest(
                        less,
                        unit,
                        floor,
                    );
                assert(v[i] == less[i]);
                assert(v[i].1 * unit == highest(v, unit, floor));
            }
        }
    }
}

/// The axes: the last five minutes, to one second at least, and the greatest
/// power shown or ten watts.
pub proof fn axes_hold_the_curves(l: LedgerView)
    ensures
        ({
            let c = curves_of(l);
            let start = if l.elapsed > 300_000_000 { l.elapsed - 300_000_000 } else { 0 };
            &&& c.from == start
            &&& c.to == (if l.elapsed > 1_000_000 { l.elapsed as int } else { 1_000_000 })
            &&& c.battery == known_points(l.history)
            &&& c.system == l.system_history
            &&& highest(
                l.system_history,
                1000,
                highest(known_points(l.history), 1, 10_000_000_000),
            ) <= u128::MAX ==> c.peak == highest(
                l.system_history,
                1000,
                highest(known_points(l.history), 1, 10_000_000_000),
            )
        }),
{
    curves_show_what_is_known(
        l.history,
        Point { t: 0, dt: 0, w: None },
        known_points(l.history),
        1,
        10_000_000_000,
    );
    curves_show_what_is_known(
        l.history,
        Point { t: 0, dt: 0, w: None },
        l.system_history,
        1000,
        highest(known_points(l.history), 1, 10_000_000_000),
    );
}

/// Who keeps the machine awake: a line that names a process and holds the word
/// `Sleep`, up to its first colon and without blanks around it.
pub proof fn blockers_are_processes_that_keep_it_awake(lines: Seq<Seq<char>>, line: Seq<char>)
    ensures
        blockers_in(seq![]).len() == 0,
        ({
            let found = holds(line, "pid "@) && holds(line, "Sleep"@);
            &&& found ==> blockers_in(lines.push(line)) == blockers_in(lines).push(
                pieces(trimmed(line), ':')[0],
            )
            &&& !found && !holds(line, "NoIdleSleep"@) ==> blockers_in(lines.push(line))
                == blockers_in(lines)
        }),
{
    assert(lines.push(line).drop_last() =~= lines);
}

/// What a terminal shows depends on its size: below 65 by 20 a few lines, and
/// otherwise the dashboard, or the machine that is looked into. The chart takes
/// seven rows from 32 rows on, four from 24 on, and none below or with details.
pub proof fn screens_fit_their_terminal(
    s: ViewState,
    l: LedgerView,
    path: Seq<char>,
    width: u16,
    height: u16,
    now: i64,
)
    ensures
        ({
            let (after, screen) = drawn(s, l, path, width, height, now);
            let small = width < 65 || height < 20;
            let inside = s.vm_target is Some && s.vm_focus;
            &&& small <==> screen is Small
            &&& !small && inside <==> screen is Machine
            &&& small ==> after == s
            &&& !small && !inside ==> screen is Host && {
                let d = screen->Host_0;
                &&& d.chart_height == (if s.detail || height < 24 {
                    0int
                } else if height < 32 {
                    4
                } else {
                    7
                })
                &&& d.evidence_height == (if s.detail { 7int } else { 4 })
                &&& d.path == " "@ + path
                &&& d.machine.len() == 3
                &&& d.machine[0] == battery_line(l)
                &&& d.machine[1] == chip_line(l)
                &&& d.machine[2] == sampler_line(l)
                &&& s.totals ==> d.list.rows == total_rows(l)
                &&& !s.totals ==> d.list.rows == now_rows(current_rows(l), l)
                &&& d.list.rows.len() > 0 ==> d.list.selected is Some && d.list.selected->0 == (
                if s.tree_selected < d.list.rows.len() {
                    s.tree_selected as int
                } else {
                    d.list.rows.len() - 1
                })
                &&& d.list.rows.len() == 0 ==> d.list.selected is None
            }
        }),
{
}

/// The machine that is looked into is the inspected process of the target, and
/// only while it is the same run of that process.
pub proof fn only_the_same_run_is_looked_into(s: ViewState, l: LedgerView)
    ensures
        target_of(s, l) is Some ==> s.vm_target is Some && target_of(s, l)->0.pid
            == (s.vm_target->0).0 && target_of(s, l)->0.start_abstime == (s.vm_target->0).1
            && l.vms.contains(target_of(s, l)->0),
{
    if let Some((pid, start)) = s.vm_target {
        crate::analysis::seat_is_first(l.vms, pid);
    }
}

/// Throughput is shown in megabytes per second with one decimal.
pub proof fn throughput_is_shown_in_megabytes(bps: u64)
    ensures
        writes(megabytes(bps), bps as int, 100_000_000_000, 1),
{
    decimals_write_the_nearest(bps as nat, 100_000_000_000, 1);
}

/// What the other lines over the table say: of the chip and its heat, and how
/// much of it was measured and at what cost. A number is as
/// `unknown_numbers_are_dashes` tells.
pub proof fn chip_and_sampler_lines_say_what_is_known(l: LedgerView)
    ensures
        ({
            let soc = match l.latest {
                Some(s) => s.soc,
                None => None,
            };
            let heat = match l.latest {
                Some(s) => s.thermal,
                None => None,
            };
            let cpu = match soc {
                Some(p) => known_micro(p.cpu_w),
                None => "—"@,
            };
            let gpu = match soc {
                Some(p) => known_micro(p.gpu_w),
                None => "—"@,
            };
            let total = match soc {
                Some(p) => known_micro(Some(p.total_w)),
                None => "—"@,
            };
            let die = match heat {
                Some(t) => known_signed(t.cpu_die_max_c),
                None => "—"@,
            };
            let pressure = match heat {
                Some(t) => match t.pressure {
                    ThermalPressure::Nominal => "NOMINAL"@,
                    ThermalPressure::Fair => "FAIR"@,
                    ThermalPressure::Serious => "SERIOUS"@,
                    ThermalPressure::Critical => "CRITICAL"@,
                    ThermalPressure::Unknown(v) => "UNKNOWN("@ + digits(v as nat) + ")"@,
                },
                None => "unknown"@,
            };
            chip_line(l) == "Chip: CPU "@ + cpu + " W · GPU "@ + gpu + " W · total "@ + total
                + " W · CPU "@ + die + "°C · "@ + pressure
        }),
        exists|cost: Seq<char>| #[trigger]
            writes(cost, l.sampler_ms as int, 1_000_000, 0) && sampler_line(l)
                == "CPU energy counters "@ + digits(l.measured_procs as nat) + "/"@ + digits(
                l.total_procs as nat,
            ) + " · sampler "@ + cost + "ms · "@ + digits(l.gaps as nat) + " gaps excluded"@,
{
    decimals_write_the_nearest(l.sampler_ms as nat, 1_000_000, 0);
}

/// The headings say how much energy was observed, in watt hours with three
/// decimals; the small screen names the last minute's mean too.
pub proof fn headings_say_what_was_observed(l: LedgerView, path: Seq<char>)
    ensures
        exists|wh: Seq<char>| #[trigger]
            writes(wh, l.battery_j as int, 3_600_000_000_000_000_000, 3) && heading_text(l)
                == "DUDE, WHERE'S MY BATTERY?   +"@ + signed_fixed(l.elapsed as int, 1_000_000, 0)
                + "s   "@ + wh + " Wh observed"@ && small_text(l, path) == "● RECORDING  "@ + wh
                + " Wh\nBattery "@ + known(rolling_of(l), 100_000_000)
                + " W (60s)\nEnlarge terminal to 65×20 for dashboard.\nq quit · m mark change\n"@
                + path,
{
    decimals_write_the_nearest(l.battery_j as nat, 3_600_000_000_000_000_000, 3);
}

/// The power axis is labelled 15 percent above the greatest power, in whole
/// watts.
pub proof fn the_axis_is_labelled_above_the_peak(l: LedgerView)
    ensures
        exists|w: Seq<char>| #[trigger]
            writes(
                w,
                115 * highest(
                    l.system_history,
                    1000,
                    highest(known_points(l.history), 1, 10_000_000_000),
                ),
                100_000_000_000,
                0,
            ) && curves_of(l).label == w + "W"@,
{
    let peak = highest(
        l.system_history,
        1000,
        highest(known_points(l.history), 1, 10_000_000_000),
    );
    curves_show_what_is_known(
        l.history,
        Point { t: 0, dt: 0, w: None },
        known_points(l.history),
        1,
        10_000_000_000,
    );
    curves_show_what_is_known(
        l.history,
        Point { t: 0, dt: 0, w: None },
        l.system_history,
        1000,
        highest(known_points(l.history), 1, 10_000_000_000),
    );
    decimals_write_the_nearest((peak * 115) as nat, 100_000_000_000, 0);
    let w = fixed((peak * 115) as nat, 100_000_000_000, 0);
    assert((peak * 115) as nat == 115 * peak);
    assert(writes(w, 115 * peak, 100_000_000_000, 0));
}

/// The lines under the table: the selected process if it is looked at, or else
/// the last change, or how to mark one; then who blocks sleep; and with details
/// the GPU and the traffic.
pub proof fn evidence_is_of_the_selected_process(s: ViewState, l: LedgerView)
    ensures
        ({
            let lines = evidence_lines(s, l);
            let looked_at = s.detail && !s.totals;
            let n = if !looked_at {
                1int
            } else if s.selected < current_rows(l).len() {
                3
            } else {
                0
            };
            let traffic = match l.latest {
                Some(x) => x.io,
                None => None,
            };
            &&& lines.len() == n + (if !s.detail {
                1int
            } else if traffic is Some {
                3
            } else {
                2
            })
            &&& looked_at && n == 3 ==> {
                let p = current_rows(l)[s.selected as int];
                &&& lines[0] == printable(p.name@) + " · PID "@ + signed_digits(p.pid as int)
                    + " · parent "@ + signed_digits(p.ppid as int) + " · uid "@ + digits(
                    p.uid as nat,
                )
                &&& lines[1] == printable(
                    match p.executable {
                        Some(e) => e@,
                        None => "Executable unavailable"@,
                    },
                )
                &&& lines[2] == "Inspect: ./battery inspect "@ + signed_digits(p.pid as int)
            }
            &&& !looked_at && l.comparisons.len() > 0 ==> lines[0] == printable(
                l.comparisons[l.comparisons.len() - 1].text(),
            )
            &&& !looked_at && l.comparisons.len() == 0 ==> lines[0]
                == "m: mark one change → make it → wait 75s. Repeat to confirm."@
            &&& lines[n] == "Sleep blockers: "@ + printable(
                joined(blockers_in(lines_of(l.assertions)), " | "@),
            )
            &&& s.detail ==> lines[n + 1] == gpu_line(l)
            &&& s.detail && traffic is Some ==> lines[n + 2] == "System disk R/W "@ + megabytes(
                traffic->0.disk_read_bps,
            ) + "/"@ + megabytes(traffic->0.disk_write_bps) + " MB/s · network RX/TX "@
                + megabytes(traffic->0.net_rx_bps) + "/"@ + megabytes(traffic->0.net_tx_bps)
                + " MB/s"@
        }),
{
}

/// What the line on the GPU says.
pub proof fn the_gpu_line_is_a_hint(l: LedgerView)
    ensures
        ({
            let gpu = match l.latest {
                Some(s) => s.gpu,
                None => None,
            };
            let name = match gpu {
                Some(g) => match g.top_submitter_name {
                    Some(n) => n@,
                    None => "unknown"@,
                },
                None => "unknown"@,
            };
            let busy = match gpu {
                Some(g) => known_signed(g.device_util_pct),
                None => "—"@,
            };
            gpu_line(l) == "GPU last submitter (hint only): "@ + printable(name) + " · busy "@
                + busy + "% · "@ + digits(l.gaps as nat) + " sleep/delay gaps"@
        }),
{
}

/// The last line asks for the label while one is typed; otherwise it names the
/// keys and shows the latest notice.
pub proof fn the_footer_shows_the_label_or_the_notice(s: ViewState, l: LedgerView)
    ensures
        s.marker is Some ==> footer_text(s, l) == "Change: "@ + s.marker->0
            + "▏  Enter save · Esc cancel (recording continues)"@,
        s.marker is None ==> footer_text(s, l)
            == "q stop & save · s now / session · ↑↓/j/k scroll · PgUp/PgDn · g/G top/bottom · Enter details / VM · m mark change\n"@
            + (if l.notices.len() > 0 {
            l.notices[l.notices.len() - 1]@
        } else {
            "Battery Wh is integrated over observed discharge intervals; AC and sleep gaps are excluded."@
        }),
{
}

/// Drawing keeps a selection that is on a row, moves one past the end to the
/// last row, and changes nothing else of the view.
pub proof fn drawing_moves_selections_onto_rows(
    s: ViewState,
    l: LedgerView,
    path: Seq<char>,
    width: u16,
    height: u16,
    now: i64,
)
    requires
        width >= 65,
        height >= 20,
    ensures
        ({
            let after = drawn(s, l, path, width, height, now).0;
            let inside = s.vm_target is Some && s.vm_focus;
            let shown = if s.totals {
                total_rows(l).len() as int
            } else {
                now_rows(current_rows(l), l).len() as int
            };
            let listed = if s.totals {
                l.groups.len() as int
            } else {
                current_rows(l).len() as int
            };
            &&& after.totals == s.totals
            &&& after.marker == s.marker
            &&& after.detail == s.detail
            &&& after.vm_target == s.vm_target
            &&& after.vm_focus == s.vm_focus
            &&& after.vm_processes == s.vm_processes
            &&& inside ==> after.tree_selected == s.tree_selected && after.selected == s.selected
            &&& !inside ==> {
                &&& after.vm_selected == s.vm_selected
                &&& s.tree_selected < shown ==> after.tree_selected == s.tree_selected
                &&& s.tree_selected >= shown > 0 ==> after.tree_selected == shown - 1
                &&& shown == 0 ==> after.tree_selected == 0
                &&& s.selected < listed ==> after.selected == s.selected
                &&& s.selected >= listed > 0 ==> after.selected == listed - 1
                &&& listed == 0 ==> after.selected == 0
            }
            &&& inside && target_of(s, l) is None ==> after == s
            &&& inside && target_of(s, l) is Some ==> {
                let v = target_of(s, l)->0;
                let n = if s.vm_processes {
                    match v.guest {
                        Some(g) => g.processes@.len() as int,
                        None => 0,
                    }
                } else {
                    match v.containers {
                        Some(cs) => cs@.len() as int,
                        None => 0,
                    }
                };
                &&& s.vm_selected < n ==> after.vm_selected == s.vm_selected
                &&& s.vm_selected >= n > 0 ==> after.vm_selected == n - 1
                &&& n == 0 ==> after.vm_selected == 0
            }
        }),
{
}

/// Time since an inspection ended; none if the clock was set back.
pub open spec fn since_end(v: Inspection, now: i64) -> int {
    if now > v.finished_at {
        now - v.finished_at
    } else {
        0
    }
}

/// The screen of a virtual machine: while nothing is known, that it is being
/// identified; then its identity and how many whole seconds ago it was
/// inspected, how busy the guest is, and its processes or its containers.
pub proof fn machine_screens_say_what_was_found(
    s: ViewState,
    l: LedgerView,
    path: Seq<char>,
    now: i64,
    pid: i32,
    start: Option<u64>,
)
    requires
        s.vm_target == Some((pid, start)),
    ensures
        ({
            let m = machine_of(s, l, path, now);
            &&& m.heading == "● RECORDING · VM deep dive · host PID "@ + signed_digits(pid as int)
                + "\n"@ + path
            &&& m.list is Some <==> target_of(s, l) is Some
        }),
        target_of(s, l) is Some ==> {
            let m = machine_of(s, l, path, now);
            let v = target_of(s, l)->0;
            &&& m.status.len() == 3
            &&& exists|age: Seq<char>| #[trigger]
                writes(age, since_end(v, now), 1_000_000, 0) && m.status[0] == (match v.identity {
                    Some(id) => id.tool@ + " / "@ + (match id.profile {
                        Some(p) => p@,
                        None => "default"@,
                    }),
                    None => "unidentified"@,
                }) + " · refreshed "@ + age + "s ago · refresh every 15s"@
            &&& v.guest is None ==> m.status[2] == "Linux process metrics unavailable"@
            &&& v.guest is Some ==> {
                let g = v.guest->0;
                m.status[2] == "Linux busy "@ + known_micro(g.busy_percent) + "% of "@ + digits(
                    match g.logical_cpus {
                        Some(n) => n as nat,
                        None => 0,
                    },
                ) + " vCPUs · process CPU coverage "@ + digits(g.measured_processes as nat) + "/"@
                    + digits(g.observed_processes as nat)
            }
            &&& s.vm_processes && v.guest is Some ==> {
                let ps = v.guest->0.processes@;
                &&& m.list->0.rows.len() == ps.len()
                &&& forall|i: int|
                    0 <= i < ps.len() ==> {
                        let c = #[trigger] m.list->0.rows[i].cells;
                        &&& c.len() == 5
                        &&& c[0] == digits(ps[i].pid as nat)
                        &&& writes(c[1], ps[i].cpu_percent as int, 100_000, 1)
                        &&& c[2] == printable(ps[i].name@)
                        &&& c[3] == printable(owner_of(v.containers, ps[i]))
                        &&& writes(c[4], ps[i].rss_bytes * 10, 1_048_576, 1)
                    }
            }
            &&& !s.vm_processes && v.containers is Some ==> {
                let cs = v.containers->0@;
                &&& m.list->0.rows.len() == cs.len()
                &&& forall|i: int|
                    0 <= i < cs.len() ==> {
                        let c = #[trigger] m.list->0.rows[i].cells;
                        &&& c.len() == 3
                        &&& c[0] == known_micro(cs[i].cpu_percent)
                        &&& c[1] == printable(cs[i].name@)
                        &&& c[2] == printable(cs[i].memory@)
                    }
            }
            &&& m.details.len() > 0 && v.errors@.len() > 0 ==> m.details[m.details.len() - 1]
                == printable(v.errors@[0]@)
            &&& v.errors@.len() > 0 ==> m.details.len() > 0
        },
{
    if let Some(v) = target_of(s, l) {
        let m = machine_of(s, l, path, now);
        decimals_write_the_nearest(since_end(v, now) as nat, 1_000_000, 0);
        let age = fixed(since_end(v, now) as nat, 1_000_000, 0);
        assert(writes(age, since_end(v, now), 1_000_000, 0));
        if let Some(g) = v.guest {
            let ps = g.processes@;
            if s.vm_processes {
                assert forall|i: int| 0 <= i < ps.len() implies {
                    let c = #[trigger] m.list->0.rows[i].cells;
                    &&& c.len() == 5
                    &&& c[0] == digits(ps[i].pid as nat)
                    &&& writes(c[1], ps[i].cpu_percent as int, 100_000, 1)
                    &&& c[2] == printable(ps[i].name@)
                    &&& c[3] == printable(owner_of(v.containers, ps[i]))
                    &&& writes(c[4], ps[i].rss_bytes * 10, 1_048_576, 1)
                } by {
                    decimals_write_the_nearest(ps[i].cpu_percent as nat, 100_000, 1);
                    decimals_write_the_nearest((ps[i].rss_bytes * 10) as nat, 1_048_576, 1);
                }
            }
        }
    }
}

/// A report ends its part on sleep with the assertions as they were read, if
/// there are any.
pub proof fn reports_hold_the_assertions(l: LedgerView)
    ensures
        l.assertions.len() == 0 ==> assertions_text(l) == Seq::<char>::empty(),
        l.assertions.len() > 0 ==> assertions_text(l) == "\nLatest sleep assertions:\n"@
            + l.assertions + "\n"@,
{
}

/// Of the guest processes, those that use one percent of a CPU or more have
/// rows, in order, and the others are counted.
pub proof fn active_guests_have_rows(ps: Seq<GuestProcess>, p: GuestProcess)
    ensures
        active_of(seq![]).len() == 0,
        p.cpu_percent >= 1_000_000 ==> active_of(ps.push(p)) == active_of(ps).push(p),
        p.cpu_percent < 1_000_000 ==> active_of(ps.push(p)) == active_of(ps),
        ({
            let n = active_of(ps).len();
            let rows = guest_rows(ps);
            &&& n <= ps.len()
            &&& n == ps.len() ==> rows.len() == n
            &&& n < ps.len() ==> rows.len() == n + 1 && rows[n as int] == hidden_row(ps.len() - n)
            &&& forall|i: int| 0 <= i < n ==> #[trigger] rows[i] == guest_row(active_of(ps)[i])
        }),
{
    reveal(Seq::filter);
    assert(ps.push(p).drop_last() =~= ps);
    ps.lemma_filter_len(|x: GuestProcess| active(x));
}

/// The tables name what their columns hold, and give them their widths.
pub proof fn tables_name_their_columns(s: ViewState, l: LedgerView, v: Inspection)
    ensures
        s.totals ==> list_of(s, l).headers == seq![
            "APP / EXECUTABLE"@,
            "CPU Wh"@,
            "CPU sec"@,
            "Wakeups"@,
            "Disk MB"@,
        ] && list_of(s, l).widths == seq![
            Width::Min(20),
            Width::Length(12),
            Width::Length(12),
            Width::Length(12),
            Width::Length(12),
        ] && list_of(s, l).title
            == " Since recording started · includes exited processes · grouped by app / name "@,
        !s.totals ==> list_of(s, l).headers == seq![
            "PID"@,
            "PROCESS"@,
            "CPU W"@,
            "CPU %"@,
            "Wake/s"@,
            "RAM MiB"@,
        ] && list_of(s, l).widths == seq![
            Width::Length(8),
            Width::Min(20),
            Width::Length(10),
            Width::Length(10),
            Width::Length(10),
            Width::Length(10),
        ] && list_of(s, l).title
            == " Now · sorted by CPU energy · VM children show active guest CPU (idle <1% collapsed) · — unavailable "@,
        s.vm_processes ==> inner_list(s, v).headers == seq![
            "LINUX PID"@,
            "CPU %"@,
            "PROCESS"@,
            "CONTAINER / OWNER"@,
            "RSS MiB"@,
        ] && inner_list(s, v).widths == seq![
            Width::Length(9),
            Width::Length(8),
            Width::Length(22),
            Width::Min(18),
            Width::Length(10),
        ] && inner_list(s, v).title == " Linux processes · current two-second interval "@,
        !s.vm_processes ==> inner_list(s, v).headers == seq!["CPU %"@, "CONTAINER"@, "MEMORY"@]
            && inner_list(s, v).widths == seq![Width::Length(8), Width::Min(25), Width::Length(26)]
            && inner_list(s, v).title == " Containers · Docker sample · Tab for Linux processes "@,
{
}

/// Under the table of a machine stand two lines on what is selected: where a
/// process belongs, or what a container is made of and what it moved.
pub proof fn the_selected_guest_is_described(s: ViewState, v: Inspection, k: int)
    requires
        v.errors@.len() == 0,
        s.vm_selected == k,
    ensures
        s.vm_processes && v.guest is Some && k < v.guest->0.processes@.len() ==> {
            let p = v.guest->0.processes@[k];
            inner_details(s, v) == seq![
                printable(
                    p.name@ + " · parent "@ + digits(p.ppid as nat) + " · "@ + owner_of(
                        v.containers,
                        p,
                    ),
                ),
                printable(
                    match p.cgroup {
                        Some(c) => c@,
                        None => "cgroup unreadable"@,
                    },
                ),
            ]
        },
        !s.vm_processes && v.containers is Some && k < v.containers->0@.len() ==> {
            let c = v.containers->0@[k];
            inner_details(s, v) == seq![
                printable(
                    "Image: "@ + c.image@ + " · Compose: "@ + (match c.project {
                        Some(t) => t@,
                        None => "—"@,
                    }) + " / "@ + (match c.service {
                        Some(t) => t@,
                        None => "—"@,
                    }),
                ),
                "Network: "@ + c.net_io@ + " · disk: "@ + c.block_io@ + " (lifetime I/O totals)"@,
            ]
        },
        s.vm_processes && (v.guest is None || v.guest->0.processes@.len() == 0)
            ==> inner_details(s, v).len() == 0,
        !s.vm_processes && (v.containers is None || v.containers->0@.len() == 0)
            ==> inner_details(s, v).len() == 0,
{
}

/// A row ranks by its measured power, or else by its share of a core at the
/// nominal power, or below both.
pub proof fn rows_rank_by_power(p: ProcRow, nominal: u64)
    ensures
        p.energy_mw is Some ==> p.rank(nominal) == p.energy_mw->0,
        p.energy_mw is None && p.cpu_percent is Some ==> p.rank(nominal) * 100_000_000
            <= p.cpu_percent->0 * nominal < (p.rank(nominal) + 1) * 100_000_000,
        p.energy_mw is None && p.cpu_percent is None ==> p.rank(nominal) == -1_000_000,
{
}

/// Groups are handed out by use, the greatest first, and none is missing.
pub proof fn groups_are_handed_out_by_use(l: Ledger, rows: Seq<&Consumer>)
    requires
        l.groups@.len() <= usize::MAX,
        l.is_ranked(rows),
    ensures
        rows.len() == l.groups@.len(),
        forall|p: int, q: int|
            0 <= p < q < rows.len() ==> uses_no_less(#[trigger] rows[p]@, #[trigger] rows[q]@),
        forall|k: int| 0 <= k < l.groups@.len() ==> rows.contains(&#[trigger] l.groups@[k]),
{
    let g = l@.groups;
    let keys = consumer_keys(g);
    let order = ranking(keys);
    ranking_is_descending(keys);
    assert forall|p: int, q: int| 0 <= p < q < rows.len() implies uses_no_less(
        #[trigger] rows[p]@,
        #[trigger] rows[q]@,
    ) by {
        assert(order[p] < g.len() && order[q] < g.len());
        assert(keys[order[p] as int] == (g[order[p] as int].cpu_j, g[order[p] as int].cpu_s));
        assert(keys[order[q] as int] == (g[order[q] as int].cpu_j, g[order[q] as int].cpu_s));
        assert(rows[p] == &l.groups@[order[p] as int]);
        assert(rows[q] == &l.groups@[order[q] as int]);
    }
    assert forall|k: int| 0 <= k < l.groups@.len() implies rows.contains(
        &#[trigger] l.groups@[k],
    ) by {
        crate::order::ranking_holds_every_row(keys, k as usize);
        let p = choose|p: int| 0 <= p < order.len() && order[p] == k as usize;
        assert(rows[p] == &l.groups@[k]);
    }
}

} // verus!
