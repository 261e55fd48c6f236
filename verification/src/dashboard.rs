//! What the live view shows: the texts of each panel and the rows of each
//! table. Putting them on a terminal is up to the program.

use crate::analysis::{span_before, window_over, Point};
use crate::docker::Container;
use crate::inspection::{self, machine_text, owner_of, GuestProcess, Inspection};
use crate::ledger::{Ledger, LedgerView};
use crate::num::{
    self, digits, fixed, known, known_micro, known_signed, signed_digits, signed_fixed,
};
use crate::screen::{
    inspection_of, mebibytes, mib, now_body, now_rows, row_views, total_body, total_rows, RowView,
    TableRow, Tone,
};
use crate::text::{self, holds, joined, lines_of, pieces, printable, texts, trimmed, views};
use crate::types::{BatteryFrame, GpuFrame, IoFrame, ProcRow, SocPower, ThermalFrame};
use crate::ui::{current, current_rows, View, ViewState};
use vstd::prelude::*;
use vstd::string::*;
use vstd::view::View as _;

verus! {

/// Mean discharge over the last minute, as shown.
pub open spec fn rolling_text(l: LedgerView) -> Seq<char> {
    known(
        window_over(l.history, span_before(l.elapsed).0, span_before(l.elapsed).1).mean_of(),
        100_000_000,
    )
}

fn rolling(ledger: &Ledger) -> (r: String)
    ensures
        r@ == rolling_text(ledger@),
{
    num::number(ledger.rolling_w(), 100_000_000)
}

/// Battery energy in watt hours.
pub open spec fn energy_text(l: LedgerView) -> Seq<char> {
    fixed(l.battery_j as nat, 3_600_000_000_000_000_000, 3)
}

fn energy(ledger: &Ledger) -> (r: String)
    ensures
        r@ == energy_text(ledger@),
{
    num::render(ledger.battery_j, 3_600_000_000_000_000_000, 3)
}

/// What a terminal shows that is too small for the dashboard.
pub open spec fn small_text(l: LedgerView, path: Seq<char>) -> Seq<char> {
    "● RECORDING  "@ + energy_text(l) + " Wh\nBattery "@ + rolling_text(l)
        + " W (60s)\nEnlarge terminal to 65×20 for dashboard.\nq quit · m mark change\n"@ + path
}

fn small(ledger: &Ledger, path: &str) -> (r: String)
    ensures
        r@ == small_text(ledger@, path@),
{
    let mut r = text::copy("● RECORDING  ");
    r.append(energy(ledger).as_str());
    r.append(" Wh\nBattery ");
    r.append(rolling(ledger).as_str());
    r.append(" W (60s)\nEnlarge terminal to 65×20 for dashboard.\nq quit · m mark change\n");
    r.append(path);
    r
}

/// The line beside the sign that a recording runs.
pub open spec fn heading_text(l: LedgerView) -> Seq<char> {
    "DUDE, WHERE'S MY BATTERY?   +"@ + signed_fixed(l.elapsed as int, 1_000_000, 0) + "s   "@
        + energy_text(l) + " Wh observed"@
}

fn heading(ledger: &Ledger) -> (r: String)
    ensures
        r@ == heading_text(ledger@),
{
    let mut r = text::copy("DUDE, WHERE'S MY BATTERY?   +");
    r.append(num::signed_render(ledger.elapsed as i128, 1_000_000, 0).as_str());
    r.append("s   ");
    r.append(energy(ledger).as_str());
    r.append(" Wh observed");
    r
}

/// The latest battery frame.
pub open spec fn battery_of(l: LedgerView) -> Option<BatteryFrame> {
    match l.latest {
        Some(s) => s.battery,
        None => None,
    }
}

/// The latest chip power.
pub open spec fn soc_of(l: LedgerView) -> Option<SocPower> {
    match l.latest {
        Some(s) => s.soc,
        None => None,
    }
}

/// The latest thermal frame.
pub open spec fn thermal_of(l: LedgerView) -> Option<ThermalFrame> {
    match l.latest {
        Some(s) => s.thermal,
        None => None,
    }
}

/// The latest GPU frame.
pub open spec fn gpu_of(l: LedgerView) -> Option<GpuFrame> {
    match l.latest {
        Some(s) => s.gpu,
        None => None,
    }
}

/// The latest throughput.
pub open spec fn io_of(l: LedgerView) -> Option<IoFrame> {
    match l.latest {
        Some(s) => s.io,
        None => None,
    }
}

/// The line of the battery and of system power.
pub open spec fn battery_line(l: LedgerView) -> Seq<char> {
    "Battery "@ + rolling_text(l) + " W (60s) · "@ + (match battery_of(l) {
        Some(b) => known_signed(Some(b.soc_percent)),
        None => "—"@,
    }) + "% · "@ + (match battery_of(l) {
        Some(b) => if b.external_connected {
            "AC connected"@
        } else {
            "on battery"@
        },
        None => "battery unavailable"@,
    }) + " · SMC system "@ + (match thermal_of(l) {
        Some(t) => known_signed(t.pstr_w),
        None => "—"@,
    }) + " W"@
}

/// The line of the chip.
pub open spec fn chip_line(l: LedgerView) -> Seq<char> {
    "Chip: CPU "@ + (match soc_of(l) {
        Some(s) => known_micro(s.cpu_w),
        None => "—"@,
    }) + " W · GPU "@ + (match soc_of(l) {
        Some(s) => known_micro(s.gpu_w),
        None => "—"@,
    }) + " W · total "@ + (match soc_of(l) {
        Some(s) => known_micro(Some(s.total_w)),
        None => "—"@,
    }) + " W · CPU "@ + (match thermal_of(l) {
        Some(t) => known_signed(t.cpu_die_max_c),
        None => "—"@,
    }) + "°C · "@ + (match thermal_of(l) {
        Some(t) => t.pressure.text(),
        None => "unknown"@,
    })
}

/// The line of the sampler.
pub open spec fn sampler_line(l: LedgerView) -> Seq<char> {
    "CPU energy counters "@ + digits(l.measured_procs as nat) + "/"@ + digits(l.total_procs as nat)
        + " · sampler "@ + fixed(l.sampler_ms as nat, 1_000_000, 0) + "ms · "@ + digits(
        l.gaps as nat,
    ) + " gaps excluded"@
}

fn show_battery(ledger: &Ledger) -> (r: String)
    ensures
        r@ == battery_line(ledger@),
{
    let mut charge = text::copy("—");
    let mut state = "battery unavailable";
    let mut system = text::copy("—");
    if let Some(s) = &ledger.latest {
        if let Some(b) = &s.battery {
            charge = num::number_signed(Some(b.soc_percent));
            state = if b.external_connected {
                "AC connected"
            } else {
                "on battery"
            };
        }
        if let Some(t) = &s.thermal {
            system = num::number_signed(t.pstr_w);
        }
    }
    let mut r = text::copy("Battery ");
    r.append(rolling(ledger).as_str());
    r.append(" W (60s) · ");
    r.append(charge.as_str());
    r.append("% · ");
    r.append(state);
    r.append(" · SMC system ");
    r.append(system.as_str());
    r.append(" W");
    r
}

fn show_chip(ledger: &Ledger) -> (r: String)
    ensures
        r@ == chip_line(ledger@),
{
    let mut cpu = text::copy("—");
    let mut gpu = text::copy("—");
    let mut total = text::copy("—");
    let mut heat = text::copy("—");
    let mut pressure = text::copy("unknown");
    if let Some(s) = &ledger.latest {
        if let Some(soc) = &s.soc {
            cpu = num::number_micro(soc.cpu_w);
            gpu = num::number_micro(soc.gpu_w);
            total = num::number_micro(Some(soc.total_w));
        }
        if let Some(t) = &s.thermal {
            heat = num::number_signed(t.cpu_die_max_c);
            pressure = t.pressure.label();
        }
    }
    let mut r = text::copy("Chip: CPU ");
    r.append(cpu.as_str());
    r.append(" W · GPU ");
    r.append(gpu.as_str());
    r.append(" W · total ");
    r.append(total.as_str());
    r.append(" W · CPU ");
    r.append(heat.as_str());
    r.append("°C · ");
    r.append(pressure.as_str());
    r
}

fn show_sampler(ledger: &Ledger) -> (r: String)
    ensures
        r@ == sampler_line(ledger@),
{
    let mut r = text::copy("CPU energy counters ");
    r.append(num::decimal(ledger.measured_procs as u128).as_str());
    r.append("/");
    r.append(num::decimal(ledger.total_procs as u128).as_str());
    r.append(" · sampler ");
    r.append(num::render(ledger.sampler_ms as u128, 1_000_000, 0).as_str());
    r.append("ms · ");
    r.append(num::decimal(ledger.gaps as u128).as_str());
    r.append(" gaps excluded");
    r
}

/// Two curves over the last minutes, and how far the axes reach.
#[derive(Debug, PartialEq, Eq)]
pub struct Curves {
    /// Battery power in nanowatts; an interval without a reading is left out.
    pub battery: Vec<(i64, u64)>,
    /// System power in microwatts.
    pub system: Vec<(i64, u64)>,
    pub from: i64,
    pub to: i64,
    /// The greatest power in nanowatts; the axis reaches a little higher.
    pub peak: u128,
    /// The label at the end of the power axis.
    pub label: String,
}

/// `Curves` as sequences.
pub ghost struct CurvesView {
    pub battery: Seq<(i64, u64)>,
    pub system: Seq<(i64, u64)>,
    pub from: i64,
    pub to: i64,
    pub peak: u128,
    pub label: Seq<char>,
}

impl vstd::view::View for Curves {
    type V = CurvesView;

    open spec fn view(&self) -> CurvesView {
        CurvesView {
            battery: self.battery@,
            system: self.system@,
            from: self.from,
            to: self.to,
            peak: self.peak,
            label: self.label@,
        }
    }
}

/// The points of a history whose power is known.
pub open spec fn known_points(h: Seq<Point>) -> Seq<(i64, u64)>
    decreases h.len(),
{
    if h.len() == 0 {
        seq![]
    } else {
        match h.last().w {
            Some(w) => known_points(h.drop_last()).push((h.last().t, w)),
            None => known_points(h.drop_last()),
        }
    }
}

/// The greatest value of a curve in its unit, or `floor`.
pub open spec fn highest(v: Seq<(i64, u64)>, unit: int, floor: int) -> int
    decreases v.len(),
{
    if v.len() == 0 {
        floor
    } else {
        let h = highest(v.drop_last(), unit, floor);
        if v.last().1 * unit > h {
            v.last().1 * unit
        } else {
            h
        }
    }
}

/// The greatest power of both curves in nanowatts, at least ten watts.
pub open spec fn peak_of(l: LedgerView) -> int {
    highest(l.system_history, 1000, highest(known_points(l.history), 1, 10_000_000_000))
}

/// The curves of a ledger. The power axis reaches 15% above the peak.
pub open spec fn curves_of(l: LedgerView) -> CurvesView {
    CurvesView {
        battery: known_points(l.history),
        system: l.system_history,
        from: if l.elapsed > 300_000_000 {
            (l.elapsed - 300_000_000) as i64
        } else {
            0
        },
        to: if l.elapsed > 1_000_000 {
            l.elapsed
        } else {
            1_000_000
        },
        peak: peak_of(l) as u128,
        label: fixed((peak_of(l) * 115) as nat, 100_000_000_000, 0) + "W"@,
    }
}

fn show_curves(ledger: &Ledger) -> (r: Curves)
    ensures
        r@ == curves_of(ledger@),
{
    let mut battery: Vec<(i64, u64)> = Vec::new();
    let mut system: Vec<(i64, u64)> = Vec::new();
    let mut peak: u128 = 10_000_000_000;
    let mut i: usize = 0;
    let h = &ledger.history;
    assert(h@.take(0) =~= seq![]);
    while i < h.len()
        invariant
            i <= h@.len(),
            battery@ == known_points(h@.take(i as int)),
            peak == highest(battery@, 1, 10_000_000_000),
            peak <= 0xffff_ffff_ffff_ffff * 1000,
        decreases h.len() - i,
    {
        proof {
            assert(h@.take(i + 1).drop_last() =~= h@.take(i as int));
            assert(h@.take(i + 1).last() == h@[i as int]);
        }
        if let Some(w) = h[i].w {
            let ghost before = battery@;
            battery.push((h[i].t, w));
            assert(battery@.drop_last() =~= before);
            if w as u128 > peak {
                peak = w as u128;
            }
        }
        i += 1;
    }
    assert(h@.take(i as int) =~= h@);
    let ghost first = peak as int;
    let sh = &ledger.system_history;
    let mut k: usize = 0;
    assert(sh@.take(0) =~= seq![]);
    while k < sh.len()
        invariant
            k <= sh@.len(),
            system@ == sh@.take(k as int),
            peak == highest(sh@.take(k as int), 1000, first),
            peak <= 0xffff_ffff_ffff_ffff * 1000,
        decreases sh.len() - k,
    {
        proof {
            assert(sh@.take(k + 1).drop_last() =~= sh@.take(k as int));
            assert(sh@.take(k + 1).last() == sh@[k as int]);
        }
        let p: (i64, u64) = sh[k];
        system.push(p);
        assert(system@ =~= sh@.take(k + 1));
        let w: u128 = p.1 as u128 * 1000;
        if w > peak {
            peak = w;
        }
        k += 1;
    }
    assert(sh@.take(k as int) =~= sh@);
    let mut label = num::render(peak * 115, 100_000_000_000, 0);
    label.append("W");
    Curves {
        battery,
        system,
        from: if ledger.elapsed > 300_000_000 {
            ledger.elapsed - 300_000_000
        } else {
            0
        },
        to: if ledger.elapsed > 1_000_000 {
            ledger.elapsed
        } else {
            1_000_000
        },
        peak,
        label,
    }
}

/// The lines about the selected process.
pub open spec fn process_lines(p: ProcRow) -> Seq<Seq<char>> {
    seq![
        printable(p.name@) + " · PID "@ + signed_digits(p.pid as int) + " · parent "@
            + signed_digits(p.ppid as int) + " · uid "@ + digits(p.uid as nat),
        printable(
            match p.executable {
                Some(e) => e@,
                None => "Executable unavailable"@,
            },
        ),
        "Inspect: ./battery inspect "@ + signed_digits(p.pid as int),
    ]
}

fn show_selected(p: &ProcRow) -> (r: Vec<String>)
    ensures
        texts(r@) == process_lines(*p),
{
    let mut first = text::clean(p.name.as_str());
    first.append(" · PID ");
    first.append(num::signed(p.pid as i64).as_str());
    first.append(" · parent ");
    first.append(num::signed(p.ppid as i64).as_str());
    first.append(" · uid ");
    first.append(num::decimal(p.uid as u128).as_str());
    let second = match &p.executable {
        Some(e) => text::clean(e.as_str()),
        None => text::clean("Executable unavailable"),
    };
    let mut third = text::copy("Inspect: ./battery inspect ");
    third.append(num::signed(p.pid as i64).as_str());
    let lines: Vec<String> = vec![first, second, third];
    assert(texts(lines@) =~= process_lines(*p));
    lines
}

/// The line of what keeps the machine awake.
pub open spec fn blocker(line: Seq<char>) -> bool {
    holds(line, "pid "@) && (holds(line, "Sleep"@) || holds(line, "NoIdleSleep"@))
}

/// Who keeps the machine awake: the part of such a line before a colon.
pub open spec fn blockers_in(lines: Seq<Seq<char>>) -> Seq<Seq<char>>
    decreases lines.len(),
{
    if lines.len() == 0 {
        seq![]
    } else {
        let rest = blockers_in(lines.drop_last());
        if blocker(lines.last()) {
            rest.push(pieces(trimmed(lines.last()), ':')[0])
        } else {
            rest
        }
    }
}

/// The line of all that keeps the machine awake.
pub open spec fn blockers_text(assertions: Seq<char>) -> Seq<char> {
    "Sleep blockers: "@ + printable(joined(blockers_in(lines_of(assertions)), " | "@))
}

fn show_blockers(assertions: &str) -> (r: String)
    ensures
        r@ == blockers_text(assertions@),
{
    let lines = text::lines(&text::chars(assertions));
    let ghost all = lines_of(assertions@);
    let mut found: Vec<String> = Vec::new();
    let mut i: usize = 0;
    proof {
        assert(views(lines@).len() == lines@.len());
        assert(all.take(0) =~= seq![]);
        assert(texts(found@) =~= seq![]);
    }
    while i < lines.len()
        invariant
            i <= lines@.len(),
            all == views(lines@),
            texts(found@) == blockers_in(all.take(i as int)),
        decreases lines.len() - i,
    {
        proof {
            assert(all.take(i + 1).drop_last() =~= all.take(i as int));
            assert(all.take(i + 1).last() == lines@[i as int]@);
        }
        let l = &lines[i];
        if text::contains(l, "pid ") && (text::contains(l, "Sleep") || text::contains(
            l,
            "NoIdleSleep",
        )) {
            let t = text::trim(l);
            let parts = text::split(&t, ':');
            proof {
                text::pieces_not_empty(t@, ':');
                assert(views(parts@).len() == parts@.len());
                assert(views(parts@)[0] == parts@[0]@);
            }
            let ghost before = found@;
            let who = text::text(&parts[0]);
            found.push(who);
            assert(texts(found@) =~= texts(before).push(who@));
        }
        i += 1;
    }
    assert(all.take(i as int) =~= all);
    let mut r = text::copy("Sleep blockers: ");
    r.append(text::clean(text::join(&found, " | ").as_str()).as_str());
    r
}

/// The line of the GPU.
pub open spec fn gpu_line(l: LedgerView) -> Seq<char> {
    "GPU last submitter (hint only): "@ + printable(
        match gpu_of(l) {
            Some(g) => match g.top_submitter_name {
                Some(n) => n@,
                None => "unknown"@,
            },
            None => "unknown"@,
        },
    ) + " · busy "@ + (match gpu_of(l) {
        Some(g) => known_signed(g.device_util_pct),
        None => "—"@,
    }) + "% · "@ + digits(l.gaps as nat) + " sleep/delay gaps"@
}

fn show_gpu(ledger: &Ledger) -> (r: String)
    ensures
        r@ == gpu_line(ledger@),
{
    let mut who = text::clean("unknown");
    let mut busy = text::copy("—");
    if let Some(s) = &ledger.latest {
        if let Some(g) = &s.gpu {
            if let Some(n) = &g.top_submitter_name {
                who = text::clean(n.as_str());
            }
            busy = num::number_signed(g.device_util_pct);
        }
    }
    let mut r = text::copy("GPU last submitter (hint only): ");
    r.append(who.as_str());
    r.append(" · busy ");
    r.append(busy.as_str());
    r.append("% · ");
    r.append(num::decimal(ledger.gaps as u128).as_str());
    r.append(" sleep/delay gaps");
    r
}

/// Millionths of a byte per second in megabytes with one decimal.
pub open spec fn megabytes(bps: u64) -> Seq<char> {
    fixed(bps as nat, 100_000_000_000, 1)
}

/// The line of disk and network throughput.
pub open spec fn io_line(io: IoFrame) -> Seq<char> {
    "System disk R/W "@ + megabytes(io.disk_read_bps) + "/"@ + megabytes(io.disk_write_bps)
        + " MB/s · network RX/TX "@ + megabytes(io.net_rx_bps) + "/"@ + megabytes(io.net_tx_bps)
        + " MB/s"@
}

fn mb(bps: u64) -> (r: String)
    ensures
        r@ == megabytes(bps),
{
    num::render(bps as u128, 100_000_000_000, 1)
}

fn show_io(io: &IoFrame) -> (r: String)
    ensures
        r@ == io_line(*io),
{
    let mut r = text::copy("System disk R/W ");
    r.append(mb(io.disk_read_bps).as_str());
    r.append("/");
    r.append(mb(io.disk_write_bps).as_str());
    r.append(" MB/s · network RX/TX ");
    r.append(mb(io.net_rx_bps).as_str());
    r.append("/");
    r.append(mb(io.net_tx_bps).as_str());
    r.append(" MB/s");
    r
}

/// The lines about the selected process, or about the latest change.
pub open spec fn evidence_start(s: ViewState, l: LedgerView) -> Seq<Seq<char>> {
    if s.detail && !s.totals {
        if s.selected < current_rows(l).len() {
            process_lines(current_rows(l)[s.selected as int])
        } else {
            seq![]
        }
    } else if l.comparisons.len() > 0 {
        seq![printable(l.comparisons.last().text())]
    } else {
        seq!["m: mark one change → make it → wait 75s. Repeat to confirm."@]
    }
}

/// The lines of the evidence panel.
pub open spec fn evidence_lines(s: ViewState, l: LedgerView) -> Seq<Seq<char>> {
    let lines = evidence_start(s, l).push(blockers_text(l.assertions));
    if !s.detail {
        lines
    } else {
        match io_of(l) {
            Some(io) => lines.push(gpu_line(l)).push(io_line(io)),
            None => lines.push(gpu_line(l)),
        }
    }
}

fn show_evidence(view: &View, ledger: &Ledger) -> (r: Vec<String>)
    ensures
        texts(r@) == evidence_lines(view@, ledger@),
{
    let mut lines: Vec<String> = Vec::new();
    assert(texts(lines@) =~= seq![]);
    if view.detail && !view.totals {
        let rows = current(ledger);
        if view.selected < rows.len() {
            lines = show_selected(rows[view.selected]);
        }
    } else {
        let n: usize = ledger.comparisons.len();
        if n > 0 {
            lines.push(text::clean(ledger.comparisons[n - 1].description().as_str()));
        } else {
            lines.push(text::copy("m: mark one change → make it → wait 75s. Repeat to confirm."));
        }
        assert(texts(lines@) =~= evidence_start(view@, ledger@));
    }
    assert(texts(lines@) =~= evidence_start(view@, ledger@));
    let ghost a = lines@;
    let blockers = show_blockers(ledger.assertions.as_str());
    lines.push(blockers);
    assert(texts(lines@) =~= texts(a).push(blockers@));
    if view.detail {
        let ghost b = lines@;
        let gpu = show_gpu(ledger);
        lines.push(gpu);
        assert(texts(lines@) =~= texts(b).push(gpu@));
        if let Some(s) = &ledger.latest {
            if let Some(io) = &s.io {
                let ghost c = lines@;
                let line = show_io(io);
                lines.push(line);
                assert(texts(lines@) =~= texts(c).push(line@));
            }
        }
    }
    lines
}

/// The last lines: the label that is typed, or the keys and the last notice.
pub open spec fn footer_text(s: ViewState, l: LedgerView) -> Seq<char> {
    match s.marker {
        Some(label) => "Change: "@ + label
            + "▏  Enter save · Esc cancel (recording continues)"@,
        None =>
        "q stop & save · s now / session · ↑↓/j/k scroll · PgUp/PgDn · g/G top/bottom · Enter details / VM · m mark change\n"@
            + (if l.notices.len() > 0 {
            l.notices.last()@
        } else {
            "Battery Wh is integrated over observed discharge intervals; AC and sleep gaps are excluded."@
        }),
    }
}

fn show_footer(view: &View, ledger: &Ledger) -> (r: String)
    ensures
        r@ == footer_text(view@, ledger@),
{
    match &view.marker {
        Some(label) => {
            let mut r = text::copy("Change: ");
            r.append(label.as_str());
            r.append("▏  Enter save · Esc cancel (recording continues)");
            r
        },
        None => {
            let mut r = text::copy(
                "q stop & save · s now / session · ↑↓/j/k scroll · PgUp/PgDn · g/G top/bottom · Enter details / VM · m mark change\n",
            );
            let n: usize = ledger.notices.len();
            if n > 0 {
                r.append(ledger.notices[n - 1].as_str());
            } else {
                r.append(
                    "Battery Wh is integrated over observed discharge intervals; AC and sleep gaps are excluded.",
                );
            }
            r
        },
    }
}

/// How wide a column is.
#[derive(Debug, Clone, Copy, PartialEq, Eq)]
pub enum Width {
    Min(u16),
    Length(u16),
}

/// A table with its selected row.
#[derive(Debug, PartialEq, Eq)]
pub struct Grid {
    pub title: String,
    pub headers: Vec<String>,
    pub widths: Vec<Width>,
    pub rows: Vec<TableRow>,
    pub selected: Option<usize>,
}

/// `Grid` as sequences.
pub ghost struct GridView {
    pub title: Seq<char>,
    pub headers: Seq<Seq<char>>,
    pub widths: Seq<Width>,
    pub rows: Seq<RowView>,
    pub selected: Option<usize>,
}

impl vstd::view::View for Grid {
    type V = GridView;

    open spec fn view(&self) -> GridView {
        GridView {
            title: self.title@,
            headers: texts(self.headers@),
            widths: self.widths@,
            rows: row_views(self.rows@),
            selected: self.selected,
        }
    }
}

/// A selection kept inside a list.
pub open spec fn kept(selected: usize, count: nat) -> usize {
    if count == 0 {
        0
    } else if selected < count {
        selected
    } else {
        (count - 1) as usize
    }
}

/// The selected row of a list.
pub open spec fn mark_of(selected: usize, count: nat) -> Option<usize> {
    if count == 0 {
        None
    } else {
        Some(kept(selected, count))
    }
}

fn keep(selected: usize, count: usize) -> (r: usize)
    ensures
        r == kept(selected, count as nat),
{
    if count == 0 {
        0
    } else if selected < count {
        selected
    } else {
        count - 1
    }
}

fn mark(selected: usize, count: usize) -> (r: Option<usize>)
    ensures
        r == mark_of(selected, count as nat),
{
    if count == 0 {
        None
    } else {
        Some(keep(selected, count))
    }
}

/// The table of totals or of processes.
pub open spec fn list_of(s: ViewState, l: LedgerView) -> GridView {
    if s.totals {
        GridView {
            title:
                " Since recording started · includes exited processes · grouped by app / name "@,
            headers: seq![
                "APP / EXECUTABLE"@,
                "CPU Wh"@,
                "CPU sec"@,
                "Wakeups"@,
                "Disk MB"@,
            ],
            widths: seq![
                Width::Min(20),
                Width::Length(12),
                Width::Length(12),
                Width::Length(12),
                Width::Length(12),
            ],
            rows: total_rows(l),
            selected: mark_of(s.tree_selected, total_rows(l).len()),
        }
    } else {
        let rows = now_rows(current_rows(l), l);
        GridView {
            title:
                " Now · sorted by CPU energy · VM children show active guest CPU (idle <1% collapsed) · — unavailable "@,
            headers: seq!["PID"@, "PROCESS"@, "CPU W"@, "CPU %"@, "Wake/s"@, "RAM MiB"@],
            widths: seq![
                Width::Length(8),
                Width::Min(20),
                Width::Length(10),
                Width::Length(10),
                Width::Length(10),
                Width::Length(10),
            ],
            rows,
            selected: mark_of(s.tree_selected, rows.len()),
        }
    }
}

/// The view with its selections inside the lists.
pub open spec fn settled(s: ViewState, l: LedgerView) -> ViewState {
    ViewState {
        selected: kept(
            s.selected,
            if s.totals {
                l.groups.len()
            } else {
                current_rows(l).len()
            },
        ),
        tree_selected: kept(s.tree_selected, list_of(s, l).rows.len()),
        ..s
    }
}

fn show_list(view: &View, ledger: &Ledger) -> (r: Grid)
    ensures
        r@ == list_of(view@, ledger@),
{
    if view.totals {
        let rows = total_body(ledger);
        let headers: Vec<String> = vec![
            text::copy("APP / EXECUTABLE"),
            text::copy("CPU Wh"),
            text::copy("CPU sec"),
            text::copy("Wakeups"),
            text::copy("Disk MB"),
        ];
        let widths: Vec<Width> = vec![
            Width::Min(20),
            Width::Length(12),
            Width::Length(12),
            Width::Length(12),
            Width::Length(12),
        ];
        assert(row_views(rows@).len() == rows@.len());
        let selected = mark(view.tree_selected, rows.len());
        let g = Grid {
            title: text::copy(
                " Since recording started · includes exited processes · grouped by app / name ",
            ),
            headers,
            widths,
            rows,
            selected,
        };
        assert(g@.headers =~= list_of(view@, ledger@).headers);
        assert(g@.widths =~= list_of(view@, ledger@).widths);
        g
    } else {
        let rows = now_body(ledger);
        let headers: Vec<String> = vec![
            text::copy("PID"),
            text::copy("PROCESS"),
            text::copy("CPU W"),
            text::copy("CPU %"),
            text::copy("Wake/s"),
            text::copy("RAM MiB"),
        ];
        let widths: Vec<Width> = vec![
            Width::Length(8),
            Width::Min(20),
            Width::Length(10),
            Width::Length(10),
            Width::Length(10),
            Width::Length(10),
        ];
        assert(row_views(rows@).len() == rows@.len());
        let selected = mark(view.tree_selected, rows.len());
        let g = Grid {
            title: text::copy(
                " Now · sorted by CPU energy · VM children show active guest CPU (idle <1% collapsed) · — unavailable ",
            ),
            headers,
            widths,
            rows,
            selected,
        };
        assert(g@.headers =~= list_of(view@, ledger@).headers);
        assert(g@.widths =~= list_of(view@, ledger@).widths);
        g
    }
}

/// The dashboard of the host.
#[derive(Debug, PartialEq, Eq)]
pub struct Dashboard {
    pub chart_height: u16,
    pub evidence_height: u16,
    pub heading: String,
    pub path: String,
    pub machine: Vec<String>,
    pub curves: Curves,
    pub list: Grid,
    pub evidence: Vec<String>,
    pub footer: String,
}

/// `Dashboard` as sequences.
pub ghost struct DashboardView {
    pub chart_height: u16,
    pub evidence_height: u16,
    pub heading: Seq<char>,
    pub path: Seq<char>,
    pub machine: Seq<Seq<char>>,
    pub curves: CurvesView,
    pub list: GridView,
    pub evidence: Seq<Seq<char>>,
    pub footer: Seq<char>,
}

impl vstd::view::View for Dashboard {
    type V = DashboardView;

    open spec fn view(&self) -> DashboardView {
        DashboardView {
            chart_height: self.chart_height,
            evidence_height: self.evidence_height,
            heading: self.heading@,
            path: self.path@,
            machine: texts(self.machine@),
            curves: self.curves@,
            list: self.list@,
            evidence: texts(self.evidence@),
            footer: self.footer@,
        }
    }
}

/// The dashboard of a ledger, in a view whose selections are inside the lists.
pub open spec fn dashboard_of(
    s: ViewState,
    l: LedgerView,
    path: Seq<char>,
    height: u16,
) -> DashboardView {
    DashboardView {
        chart_height: if s.detail || height < 24 {
            0
        } else if height < 32 {
            4
        } else {
            7
        },
        evidence_height: if s.detail {
            7
        } else {
            4
        },
        heading: heading_text(l),
        path: " "@ + path,
        machine: seq![battery_line(l), chip_line(l), sampler_line(l)],
        curves: curves_of(l),
        list: list_of(s, l),
        evidence: evidence_lines(s, l),
        footer: footer_text(s, l),
    }
}

fn show_dashboard(view: &View, ledger: &Ledger, path: &str, height: u16) -> (r: Dashboard)
    ensures
        r@ == dashboard_of(view@, ledger@, path@, height),
{
    let machine: Vec<String> = vec![
        show_battery(ledger),
        show_chip(ledger),
        show_sampler(ledger),
    ];
    assert(texts(machine@) =~= seq![
        battery_line(ledger@),
        chip_line(ledger@),
        sampler_line(ledger@),
    ]);
    let mut place = text::copy(" ");
    place.append(path);
    Dashboard {
        chart_height: if view.detail || height < 24 {
            0
        } else if height < 32 {
            4
        } else {
            7
        },
        evidence_height: if view.detail {
            7
        } else {
            4
        },
        heading: heading(ledger),
        path: place,
        machine,
        curves: show_curves(ledger),
        list: show_list(view, ledger),
        evidence: show_evidence(view, ledger),
        footer: show_footer(view, ledger),
    }
}

/// The screen of one virtual machine. There is no table until its inspection
/// is complete.
#[derive(Debug, PartialEq, Eq)]
pub struct MachineScreen {
    pub heading: String,
    pub status: Vec<String>,
    pub list: Option<Grid>,
    pub details: Vec<String>,
    pub footer: String,
}

/// `MachineScreen` as sequences.
pub ghost struct MachineView {
    pub heading: Seq<char>,
    pub status: Seq<Seq<char>>,
    pub list: Option<GridView>,
    pub details: Seq<Seq<char>>,
    pub footer: Seq<char>,
}

impl vstd::view::View for MachineScreen {
    type V = MachineView;

    open spec fn view(&self) -> MachineView {
        MachineView {
            heading: self.heading@,
            status: texts(self.status@),
            list: match self.list {
                Some(g) => Some(g@),
                None => None,
            },
            details: texts(self.details@),
            footer: self.footer@,
        }
    }
}

/// The line of what a virtual machine is and how old its inspection is.
pub open spec fn age_line(v: Inspection, now: i64) -> Seq<char> {
    (match v.identity {
        Some(id) => machine_text(id),
        None => "unidentified"@,
    }) + " · refreshed "@ + (if now > v.finished_at {
        fixed((now - v.finished_at) as nat, 1_000_000, 0)
    } else {
        fixed(0, 1_000_000, 0)
    }) + "s ago · refresh every 15s"@
}

/// The line of the guest.
pub open spec fn guest_line(v: Inspection) -> Seq<char> {
    match v.guest {
        Some(g) => "Linux busy "@ + known_micro(g.busy_percent) + "% of "@ + digits(
            (match g.logical_cpus {
                Some(n) => n,
                None => 0,
            }) as nat,
        ) + " vCPUs · process CPU coverage "@ + digits(g.measured_processes as nat) + "/"@ + digits(
            g.observed_processes as nat,
        ),
        None => "Linux process metrics unavailable"@,
    }
}

fn show_age(v: &Inspection, now: i64) -> (r: String)
    ensures
        r@ == age_line(*v, now),
{
    let age: u128 = if now > v.finished_at {
        (now as i128 - v.finished_at as i128) as u128
    } else {
        0
    };
    let mut r = inspection::machine(&v.identity, "unidentified");
    r.append(" · refreshed ");
    r.append(num::render(age, 1_000_000, 0).as_str());
    r.append("s ago · refresh every 15s");
    r
}

fn show_guest_line(v: &Inspection) -> (r: String)
    ensures
        r@ == guest_line(*v),
{
    match &v.guest {
        Some(g) => {
            let cpus: u32 = match g.logical_cpus {
                Some(n) => n,
                None => 0,
            };
            let mut r = text::copy("Linux busy ");
            r.append(num::number_micro(g.busy_percent).as_str());
            r.append("% of ");
            r.append(num::decimal(cpus as u128).as_str());
            r.append(" vCPUs · process CPU coverage ");
            r.append(num::decimal(g.measured_processes as u128).as_str());
            r.append("/");
            r.append(num::decimal(g.observed_processes as u128).as_str());
            r
        },
        None => text::copy("Linux process metrics unavailable"),
    }
}

/// The row of a guest process in the table of its virtual machine.
pub open spec fn inner_row(v: Inspection, p: GuestProcess) -> RowView {
    RowView {
        cells: seq![
            digits(p.pid as nat),
            fixed(p.cpu_percent as nat, 100_000, 1),
            printable(p.name@),
            printable(owner_of(v.containers, p)),
            mebibytes(p.rss_bytes),
        ],
        tone: Tone::Host,
    }
}

/// The row of a container in the table of its virtual machine.
pub open spec fn outer_row(c: Container) -> RowView {
    RowView {
        cells: seq![known_micro(c.cpu_percent), printable(c.name@), printable(c.memory@)],
        tone: Tone::Host,
    }
}

/// The processes of a guest.
pub open spec fn guest_processes(v: Inspection) -> Seq<GuestProcess> {
    match v.guest {
        Some(g) => g.processes@,
        None => seq![],
    }
}

/// The containers of a virtual machine.
pub open spec fn guest_containers(v: Inspection) -> Seq<Container> {
    match v.containers {
        Some(cs) => cs@,
        None => seq![],
    }
}

/// The number of rows in the table of a virtual machine.
pub open spec fn inner_count(s: ViewState, v: Inspection) -> nat {
    if s.vm_processes {
        guest_processes(v).len()
    } else {
        guest_containers(v).len()
    }
}

/// The table of a virtual machine: its processes or its containers.
pub open spec fn inner_list(s: ViewState, v: Inspection) -> GridView {
    if s.vm_processes {
        GridView {
            title: " Linux processes · current two-second interval "@,
            headers: seq![
                "LINUX PID"@,
                "CPU %"@,
                "PROCESS"@,
                "CONTAINER / OWNER"@,
                "RSS MiB"@,
            ],
            widths: seq![
                Width::Length(9),
                Width::Length(8),
                Width::Length(22),
                Width::Min(18),
                Width::Length(10),
            ],
            rows: guest_processes(v).map_values(|p: GuestProcess| inner_row(v, p)),
            selected: mark_of(s.vm_selected, inner_count(s, v)),
        }
    } else {
        GridView {
            title: " Containers · Docker sample · Tab for Linux processes "@,
            headers: seq!["CPU %"@, "CONTAINER"@, "MEMORY"@],
            widths: seq![Width::Length(8), Width::Min(25), Width::Length(26)],
            rows: guest_containers(v).map_values(|c: Container| outer_row(c)),
            selected: mark_of(s.vm_selected, inner_count(s, v)),
        }
    }
}

/// The lines about the selected row.
pub open spec fn selected_lines(s: ViewState, v: Inspection) -> Seq<Seq<char>> {
    if inner_count(s, v) == 0 {
        seq![]
    } else if s.vm_processes {
        let p = guest_processes(v)[kept(s.vm_selected, inner_count(s, v)) as int];
        seq![
            printable(
                p.name@ + " · parent "@ + digits(p.ppid as nat) + " · "@ + owner_of(
                    v.containers,
                    p,
                ),
            ),
            printable(
                match p.cgroup {
                    Some(c) => c@,
                    None => "cgroup unreadable"@,
                },
            ),
        ]
    } else {
        let c = guest_containers(v)[kept(s.vm_selected, inner_count(s, v)) as int];
        seq![
            printable(
                "Image: "@ + c.image@ + " · Compose: "@ + inspection::or_dash(c.project) + " / "@
                    + inspection::or_dash(c.service),
            ),
            "Network: "@ + c.net_io@ + " · disk: "@ + c.block_io@ + " (lifetime I/O totals)"@,
        ]
    }
}

/// The lines under the table: the selected row and the first error.
pub open spec fn inner_details(s: ViewState, v: Inspection) -> Seq<Seq<char>> {
    if v.errors@.len() > 0 {
        selected_lines(s, v).push(printable(v.errors@[0]@))
    } else {
        selected_lines(s, v)
    }
}

/// The inspection that the view looks at: the latest of its target, if the
/// process is still the same.
pub open spec fn target_of(s: ViewState, l: LedgerView) -> Option<Inspection> {
    match s.vm_target {
        Some((pid, start)) => {
            let i = crate::analysis::seat(l.vms, pid);
            if i < l.vms.len() && l.vms[i].start_abstime == start {
                Some(l.vms[i])
            } else {
                None
            }
        },
        None => None,
    }
}

/// The screen of the virtual machine that the view looks at.
pub open spec fn machine_of(s: ViewState, l: LedgerView, path: Seq<char>, now: i64) -> MachineView {
    let heading = match s.vm_target {
        Some((pid, _)) => "● RECORDING · VM deep dive · host PID "@ + signed_digits(pid as int)
            + "\n"@ + path,
        None => seq![],
    };
    match target_of(s, l) {
        None => MachineView {
            heading,
            status: seq![
                "Identifying VM from open disks, then sampling its containers and Linux processes…\nHost recording continues. No sudo or software installation."@,
            ],
            list: None,
            details: seq![],
            footer: "Esc back · q stop recording"@,
        },
        Some(v) => MachineView {
            heading,
            status: seq![
                age_line(v, now),
                "Guest CPU: 100% = one logical CPU. Container watts cannot be measured here."@,
                guest_line(v),
            ],
            list: Some(inner_list(s, v)),
            details: inner_details(s, v),
            footer:
                "Tab containers / Linux processes · ↑↓ select · d refresh · Esc back · q stop\nHost samples and completed VM inspections are saved while this view is open."@,
        },
    }
}

fn inner_grid(view: &View, v: &Inspection) -> (r: Grid)
    ensures
        r@ == inner_list(view@, *v),
{
    let mut rows: Vec<TableRow> = Vec::new();
    if view.vm_processes {
        if let Some(g) = &v.guest {
            let ps = &g.processes;
            let mut i: usize = 0;
            while i < ps.len()
                invariant
                    i <= ps@.len(),
                    rows@.len() == i,
                    forall|k: int| 0 <= k < i ==> (#[trigger] rows@[k])@ == inner_row(*v, ps@[k]),
                decreases ps.len() - i,
            {
                let p = &ps[i];
                let cells: Vec<String> = vec![
                    num::decimal(p.pid as u128),
                    num::render(p.cpu_percent as u128, 100_000, 1),
                    text::clean(p.name.as_str()),
                    text::clean(v.owner(p).as_str()),
                    mib(p.rss_bytes),
                ];
                assert(texts(cells@) =~= inner_row(*v, *p).cells);
                rows.push(TableRow { cells, tone: Tone::Host });
                i += 1;
            }
        }
        assert(row_views(rows@) =~= inner_list(view@, *v).rows);
        let selected = mark(view.vm_selected, rows.len());
        let headers: Vec<String> = vec![
            text::copy("LINUX PID"),
            text::copy("CPU %"),
            text::copy("PROCESS"),
            text::copy("CONTAINER / OWNER"),
            text::copy("RSS MiB"),
        ];
        let widths: Vec<Width> = vec![
            Width::Length(9),
            Width::Length(8),
            Width::Length(22),
            Width::Min(18),
            Width::Length(10),
        ];
        let g = Grid {
            title: text::copy(" Linux processes · current two-second interval "),
            headers,
            widths,
            rows,
            selected,
        };
        assert(g@.headers =~= inner_list(view@, *v).headers);
        assert(g@.widths =~= inner_list(view@, *v).widths);
        g
    } else {
        if let Some(cs) = &v.containers {
            let mut i: usize = 0;
            while i < cs.len()
                invariant
                    i <= cs@.len(),
                    rows@.len() == i,
                    forall|k: int| 0 <= k < i ==> (#[trigger] rows@[k])@ == outer_row(cs@[k]),
                decreases cs.len() - i,
            {
                let c = &cs[i];
                let cells: Vec<String> = vec![
                    num::number_micro(c.cpu_percent),
                    text::clean(c.name.as_str()),
                    text::clean(c.memory.as_str()),
                ];
                assert(texts(cells@) =~= outer_row(*c).cells);
                rows.push(TableRow { cells, tone: Tone::Host });
                i += 1;
            }
        }
        assert(row_views(rows@) =~= inner_list(view@, *v).rows);
        let selected = mark(view.vm_selected, rows.len());
        let headers: Vec<String> = vec![
            text::copy("CPU %"),
            text::copy("CONTAINER"),
            text::copy("MEMORY"),
        ];
        let widths: Vec<Width> = vec![Width::Length(8), Width::Min(25), Width::Length(26)];
        let g = Grid {
            title: text::copy(" Containers · Docker sample · Tab for Linux processes "),
            headers,
            widths,
            rows,
            selected,
        };
        assert(g@.headers =~= inner_list(view@, *v).headers);
        assert(g@.widths =~= inner_list(view@, *v).widths);
        g
    }
}

fn process_detail(v: &Inspection, p: &GuestProcess) -> (r: Vec<String>)
    ensures
        texts(r@) == seq![
            printable(
                p.name@ + " · parent "@ + digits(p.ppid as nat) + " · "@ + owner_of(
                    v.containers,
                    *p,
                ),
            ),
            printable(
                match p.cgroup {
                    Some(c) => c@,
                    None => "cgroup unreadable"@,
                },
            ),
        ],
{
    let mut first = text::copy(p.name.as_str());
    first.append(" · parent ");
    first.append(num::decimal(p.ppid as u128).as_str());
    first.append(" · ");
    first.append(v.owner(p).as_str());
    let second = match &p.cgroup {
        Some(c) => text::clean(c.as_str()),
        None => text::clean("cgroup unreadable"),
    };
    let r: Vec<String> = vec![text::clean(first.as_str()), second];
    assert(texts(r@) =~= seq![printable(first@), second@]);
    r
}

fn container_detail(c: &Container) -> (r: Vec<String>)
    ensures
        texts(r@) == seq![
            printable(
                "Image: "@ + c.image@ + " · Compose: "@ + inspection::or_dash(c.project) + " / "@
                    + inspection::or_dash(c.service),
            ),
            "Network: "@ + c.net_io@ + " · disk: "@ + c.block_io@ + " (lifetime I/O totals)"@,
        ],
{
    let mut first = text::copy("Image: ");
    first.append(c.image.as_str());
    first.append(" · Compose: ");
    first.append(inspection::dash(&c.project).as_str());
    first.append(" / ");
    first.append(inspection::dash(&c.service).as_str());
    let mut second = text::copy("Network: ");
    second.append(c.net_io.as_str());
    second.append(" · disk: ");
    second.append(c.block_io.as_str());
    second.append(" (lifetime I/O totals)");
    let r: Vec<String> = vec![text::clean(first.as_str()), second];
    assert(texts(r@) =~= seq![printable(first@), second@]);
    r
}

fn show_inner_details(view: &View, v: &Inspection) -> (r: Vec<String>)
    ensures
        texts(r@) == inner_details(view@, *v),
{
    let mut lines: Vec<String> = Vec::new();
    assert(texts(lines@) =~= seq![]);
    if view.vm_processes {
        if let Some(g) = &v.guest {
            let n: usize = g.processes.len();
            if n > 0 {
                lines = process_detail(v, &g.processes[keep(view.vm_selected, n)]);
            }
        }
    } else {
        if let Some(cs) = &v.containers {
            let n: usize = cs.len();
            if n > 0 {
                lines = container_detail(&cs[keep(view.vm_selected, n)]);
            }
        }
    }
    assert(texts(lines@) == selected_lines(view@, *v));
    if v.errors.len() > 0 {
        let ghost before = lines@;
        let e = text::clean(v.errors[0].as_str());
        lines.push(e);
        assert(texts(lines@) =~= texts(before).push(e@));
    }
    lines
}

/// What the terminal shows.
#[derive(Debug, PartialEq, Eq)]
pub enum Screen {
    /// Too small for more than a few lines.
    Small(String),
    Host(Dashboard),
    Machine(MachineScreen),
}

/// `Screen` as sequences.
pub ghost enum ScreenView {
    Small(Seq<char>),
    Host(DashboardView),
    Machine(MachineView),
}

impl vstd::view::View for Screen {
    type V = ScreenView;

    open spec fn view(&self) -> ScreenView {
        match self {
            Screen::Small(s) => ScreenView::Small(s@),
            Screen::Host(d) => ScreenView::Host(d@),
            Screen::Machine(m) => ScreenView::Machine(m@),
        }
    }
}

/// The view after the screen of a virtual machine was drawn.
pub open spec fn settled_inside(s: ViewState, l: LedgerView) -> ViewState {
    match target_of(s, l) {
        Some(v) => ViewState { vm_selected: kept(s.vm_selected, inner_count(s, v)), ..s },
        None => s,
    }
}

/// What a terminal shows of a ledger, and the view after it: drawing keeps the
/// selections inside their lists.
pub open spec fn drawn(
    s: ViewState,
    l: LedgerView,
    path: Seq<char>,
    width: u16,
    height: u16,
    now: i64,
) -> (ViewState, ScreenView) {
    if width < 65 || height < 20 {
        (s, ScreenView::Small(small_text(l, path)))
    } else if s.vm_target is Some && s.vm_focus {
        (settled_inside(s, l), ScreenView::Machine(machine_of(s, l, path, now)))
    } else {
        (
            settled(s, l),
            ScreenView::Host(dashboard_of(settled(s, l), l, path, height)),
        )
    }
}

fn draw_vm(
    ledger: &Ledger,
    path: &str,
    view: &mut View,
    now: i64,
    pid: i32,
    start: Option<u64>,
) -> (r: MachineScreen)
    requires
        old(view)@.vm_target == Some((pid, start)),
    ensures
        final(view)@ == settled_inside(old(view)@, ledger@),
        r@ == machine_of(old(view)@, ledger@, path@, now),
{
    let mut heading = text::copy("● RECORDING · VM deep dive · host PID ");
    heading.append(num::signed(pid as i64).as_str());
    heading.append("\n");
    heading.append(path);
    if let Some(v) = inspection_of(ledger, pid) {
        let same = match (v.start_abstime, start) {
            (Some(a), Some(b)) => a == b,
            (None, None) => true,
            _ => false,
        };
        if same {
            assert(target_of(view@, ledger@) == Some(*v));
            let status: Vec<String> = vec![
                show_age(v, now),
                text::copy(
                    "Guest CPU: 100% = one logical CPU. Container watts cannot be measured here.",
                ),
                show_guest_line(v),
            ];
            assert(texts(status@) =~= machine_of(view@, ledger@, path@, now).status);
            let list = inner_grid(view, v);
            let details = show_inner_details(view, v);
            let count: usize = if view.vm_processes {
                match &v.guest {
                    Some(g) => g.processes.len(),
                    None => 0,
                }
            } else {
                match &v.containers {
                    Some(cs) => cs.len(),
                    None => 0,
                }
            };
            view.vm_selected = keep(view.vm_selected, count);
            return MachineScreen {
                heading,
                status,
                list: Some(list),
                details,
                footer: text::copy(
                    "Tab containers / Linux processes · ↑↓ select · d refresh · Esc back · q stop\nHost samples and completed VM inspections are saved while this view is open.",
                ),
            };
        }
    }
    let status: Vec<String> = vec![
        text::copy(
            "Identifying VM from open disks, then sampling its containers and Linux processes…\nHost recording continues. No sudo or software installation.",
        ),
    ];
    let details: Vec<String> = Vec::new();
    assert(texts(status@) =~= machine_of(view@, ledger@, path@, now).status);
    assert(texts(details@) =~= seq![]);
    MachineScreen {
        heading,
        status,
        list: None,
        details,
        footer: text::copy("Esc back · q stop recording"),
    }
}

/// What a terminal of a size shows. Times count millionths of a second.
pub fn draw(
    ledger: &Ledger,
    path: &str,
    view: &mut View,
    width: u16,
    height: u16,
    now: i64,
) -> (r: Screen)
    ensures
        (final(view)@, r@) == drawn(old(view)@, ledger@, path@, width, height, now),
{
    if width < 65 || height < 20 {
        return Screen::Small(small(ledger, path));
    }
    if view.vm_focus {
        if let Some((pid, start)) = view.vm_target {
            return Screen::Machine(draw_vm(ledger, path, view, now, pid, start));
        }
    }
    let count: usize = if view.totals {
        ledger.groups.len()
    } else {
        current(ledger).len()
    };
    let list = show_list(view, ledger);
    assert(row_views(list.rows@).len() == list.rows@.len());
    view.selected = keep(view.selected, count);
    view.tree_selected = keep(view.tree_selected, list.rows.len());
    Screen::Host(show_dashboard(view, ledger, path, height))
}

/// Drawing leaves a selection on a row that is shown, and drawing again
/// changes nothing.
pub proof fn drawing_settles_the_selection(s: ViewState, l: LedgerView)
    ensures
        settled(settled(s, l), l) == settled(s, l),
        settled_inside(settled_inside(s, l), l) == settled_inside(s, l),
        list_of(s, l).selected is Some ==> list_of(s, l).selected->0 < list_of(s, l).rows.len(),
        list_of(settled(s, l), l) == list_of(s, l),
{
}

} // verus!
