use battery::analysis::{discharge, group, Comparison, Point, Window};
use battery::ledger::Ledger;
use battery::record::Record;
use battery::types::{BatteryFrame, ProcRow, Sample, ThermalFrame, ThermalPressure};

const S: f64 = 1e6;

fn aj(joules: u64) -> u128 {
    joules as u128 * 1_000_000_000_000_000_000
}

fn ns(seconds: u64) -> u128 {
    seconds as u128 * 1_000_000_000
}

fn plain(dt: f64, watts: f64, ac: bool) -> Sample {
    Sample {
        dt_ns: (dt * 1e9) as u64,
        battery: Some(BatteryFrame {
            voltage_mv: 12_000_000_000,
            system_power_mw: (-watts * 1e9) as i64,
            external_connected: ac,
            ..Default::default()
        }),
        soc: None,
        thermal: None,
        gpu: None,
        io: None,
        procs: vec![],
    }
}

fn wrap(t: f64, gap: bool, sample: Sample) -> Record {
    Record::Sample {
        timestamp: (t * S) as i64,
        elapsed_s: (t * S) as i64,
        gap,
        sampler_ms: 1_000_000,
        sample: Box::new(sample),
    }
}

fn sample(t: f64, dt: f64, watts: f64, ac: bool, gap: bool) -> Record {
    wrap(t, gap, plain(dt, watts, ac))
}

fn marker(t: f64, label: &str) -> Record {
    Record::Marker {
        timestamp: (t * S) as i64,
        elapsed_s: (t * S) as i64,
        label: label.to_string(),
    }
}

fn row(name: &str, path: Option<&str>, energy: Option<u64>, cpu: Option<u64>) -> ProcRow {
    ProcRow {
        pid: 42,
        ppid: 1,
        uid: 501,
        same_uid: true,
        start_abstime: Some(100),
        executable: path.map(|p| p.to_string()),
        footprint_bytes: None,
        name: name.to_string(),
        cpu_percent: cpu,
        energy_mw: energy,
        lifetime_energy_j: Some(999_999_000_000),
        disk_read_bps: None,
        disk_write_bps: None,
        wakeups_per_s: Some(10_000_000),
    }
}

#[test]
fn integrates_trapezoid_and_excludes_ac_transitions_and_sleep() {
    let mut l = Ledger::default();
    l.apply(sample(2., 2., 10., false, false)); // first endpoint only
    l.apply(sample(4., 2., 20., false, false)); // 15W × 2s
    l.apply(sample(6., 2., 40., true, false)); // connected to AC
    l.apply(sample(8., 2., 10., false, false)); // transition: unknown
    l.apply(sample(100., 92., 100., false, true)); // asleep/delayed
    assert_eq!(l.battery_j, aj(30));
    assert_eq!(l.battery_seconds, ns(2));
    assert_eq!(l.gaps, 1);
}

#[test]
fn the_mean_of_both_ends_keeps_its_half() {
    let mut l = Ledger::default();
    for (t, power) in [(1., -1), (2., -2)] {
        let mut s = plain(1., 0., false);
        s.battery.as_mut().unwrap().system_power_mw = power;
        l.apply(wrap(t, false, s));
    }
    assert_eq!(l.battery_j, 1_500_000_000);
}

#[test]
fn unavailable_battery_is_not_zero() {
    let mut r = sample(4., 2., 10., false, false);
    if let Record::Sample { sample, .. } = &mut r {
        sample.battery = None;
    }
    let mut l = Ledger::default();
    l.apply(r);
    assert_eq!(l.rolling_w(), None);
    assert_eq!(l.battery_seconds, 0);
}

#[test]
fn marker_windows_are_weighted_and_wait_for_settling() {
    let mut l = Ledger::default();
    for t in (2..=64).step_by(2) {
        l.apply(sample(t as f64, 2., 20., false, false));
    }
    l.apply(marker(65., "dim screen"));
    for t in (66..=140).step_by(2) {
        l.apply(sample(t as f64, 2., 10., false, false));
    }
    let c = &l.comparisons[0];
    assert!(c.ready());
    assert_eq!(c.before.seconds, ns(60));
    assert_eq!(c.after.seconds, ns(60));
    let before = c.before.mean().unwrap() as f64 / 1e9;
    assert!((before - 20.).abs() < 0.1);
    assert_eq!(c.after.mean(), Some(10_000_000_000));
}

#[test]
fn a_second_change_does_not_mix_two_interventions() {
    let mut l = Ledger::default();
    for t in 1..=65 {
        l.apply(sample(t as f64, 1., 20., false, false));
    }
    l.apply(marker(65., "one"));
    for t in 66..=90 {
        l.apply(sample(t as f64, 1., 10., false, false));
    }
    l.apply(marker(90., "two"));
    for t in 91..=180 {
        l.apply(sample(t as f64, 1., 5., false, false));
    }
    assert!(!l.comparisons[0].ready());
    assert_eq!(l.comparisons[0].after.seconds, ns(10));
}

#[test]
fn session_cpu_energy_does_not_include_process_lifetime() {
    let mut r = sample(2., 2., 10., false, false);
    if let Record::Sample { sample, .. } = &mut r {
        sample.procs.push(row(
            "Renderer",
            Some("/Applications/Browser.app/Contents/Helpers/Renderer.app/Contents/MacOS/Renderer"),
            Some(1_000_000_000),
            Some(50_000_000),
        ));
    }
    let mut l = Ledger::default();
    l.apply(r);
    l.apply(sample(4., 2., 10., false, false)); // process exited; ledger persists
    let g = l.groups.iter().find(|g| g.name == "Browser").unwrap();
    assert_eq!(g.cpu_j, aj(2));
    assert_eq!(g.cpu_s, 100_000_000_000_000_000);
    assert_eq!(g.wakeups, 20_000_000_000_000_000);
}

#[test]
fn processes_of_one_application_share_a_group() {
    let mut s = plain(1., 10., false);
    s.procs.push(row("a", Some("/Applications/X.app/Contents/MacOS/a"), Some(1_000_000_000), None));
    s.procs.push(row("b", Some("/Applications/X.app/Contents/MacOS/b"), Some(2_000_000_000), None));
    s.procs.push(row("idle", None, None, None));
    s.procs.push(row("tool", None, None, Some(100_000_000)));
    let mut l = Ledger::default();
    l.apply(wrap(1., false, s));
    assert_eq!(l.groups.len(), 2);
    assert_eq!(l.groups[0].name, "X");
    assert_eq!(l.groups[0].cpu_j, aj(3));
    assert_eq!(l.groups[0].samples, 2);
    assert_eq!(l.groups[0].energy_samples, 2);
    assert_eq!(l.groups[1].name, "tool");
    assert_eq!(l.groups[1].energy_samples, 0);
    assert_eq!(l.measured_procs, 2);
    assert_eq!(l.total_procs, 4);
    let ranked = l.ranked();
    assert_eq!(ranked[0].name, "X");
    assert_eq!(ranked[1].name, "tool");
}

#[test]
fn a_sample_adds_to_each_group_the_sum_of_its_rows() {
    let mut l = Ledger::default();
    for t in [2., 4.] {
        let mut s = plain(2., 10., false);
        for (name, w) in [("a", 1), ("b", 4), ("a", 2)] {
            s.procs.push(row(name, None, Some(w * 1_000_000_000), None));
        }
        l.apply(wrap(t, false, s));
    }
    assert_eq!(l.groups[0].cpu_j, aj(12));
    assert_eq!(l.groups[1].cpu_j, aj(16));
}

#[test]
fn a_gap_charges_no_group() {
    let mut s = plain(1., 10., false);
    s.procs.push(row("tool", None, Some(1_000_000_000), Some(1)));
    let mut l = Ledger::default();
    l.apply(wrap(1., true, s));
    assert!(l.groups.is_empty());
    assert_eq!(l.gaps, 1);
    assert_eq!(l.samples, 1);
}

#[test]
fn grouping_uses_the_outermost_bundle_or_the_name() {
    assert_eq!(group(&row("n", Some("/A/B.app/C/D.app/E"), None, None)), "B");
    assert_eq!(group(&row("n", Some("/usr/bin/tool"), None, None)), "n");
    assert_eq!(group(&row("n", None, None, None)), "n");
}

#[test]
fn discharge_needs_a_battery_that_runs_the_machine() {
    assert_eq!(discharge(&plain(1., 10., false)), Some(10_000_000_000));
    assert_eq!(discharge(&plain(1., 10., true)), None);
    assert_eq!(discharge(&plain(1., -1., false)), None);
    assert_eq!(discharge(&plain(1., 0., false)), Some(0));
    let mut s = plain(1., 10., false);
    s.battery.as_mut().unwrap().is_charging = true;
    assert_eq!(discharge(&s), None);
    let mut s = plain(1., 10., false);
    s.battery.as_mut().unwrap().voltage_mv = 0;
    assert_eq!(discharge(&s), None);
}

#[test]
fn the_peak_names_the_three_greatest_users() {
    let mut l = Ledger::default();
    l.apply(sample(1., 1., 10., false, false));
    let mut s = plain(1., 12., false);
    s.procs.push(row("one", None, Some(1_000_000_000), None));
    s.procs.push(row("four", None, Some(4_000_000_000), None));
    s.procs.push(row("none", None, None, Some(1)));
    s.procs.push(row("two", None, Some(2_000_000_000), None));
    s.procs.push(row("three", None, Some(3_456_000_000), None));
    l.apply(wrap(2., false, s));
    assert_eq!(l.peak_w, 11_000_000_000);
    assert_eq!(l.peak_at, 2_000_000);
    assert_eq!(l.peak_consumers, "four 4.00 CPU W, three 3.46 CPU W, two 2.00 CPU W");
}

#[test]
fn the_first_of_equal_peaks_stays() {
    let mut l = Ledger::default();
    for (t, w) in [(1., 10.), (2., 20.), (3., 20.), (4., 20.), (5., 5.)] {
        let mut s = plain(1., w, false);
        s.procs.push(row(&format!("at{t}"), None, Some(1_000_000_000), None));
        l.apply(wrap(t, false, s));
    }
    assert_eq!(l.peak_w, 20_000_000_000);
    assert_eq!(l.peak_at, 3_000_000);
    assert_eq!(l.peak_consumers, "at3 1.00 CPU W");
    assert_eq!(Ledger::default().peak_w, 0);
}

#[test]
fn the_rolling_mean_lies_among_recent_powers() {
    let mut l = Ledger::default();
    for t in 1..=40 {
        l.apply(sample(t as f64, 1., 100., false, false));
    }
    for t in 41..=110 {
        l.apply(sample(t as f64, 1., if t % 2 == 0 { 10. } else { 20. }, false, false));
    }
    assert_eq!(l.rolling_w(), Some(15_000_000_000));
    let mut unknown = plain(1., 10., false);
    unknown.battery = None;
    l.apply(wrap(111., false, unknown));
    assert_eq!(l.rolling_w(), Some(15_000_000_000));
}

#[test]
fn history_is_kept_for_five_minutes() {
    let mut l = Ledger::default();
    for t in 1..=400 {
        l.apply(sample(t as f64, 1., 10., false, false));
    }
    assert_eq!(l.history.front().unwrap().t, 100_000_000);
    assert_eq!(l.history.len(), 301);
}

#[test]
fn system_power_is_integrated_on_external_power_too() {
    let mut l = Ledger::default();
    for (t, w) in [(1., 10_000_000), (2., 20_000_000), (3., -1)] {
        let mut s = plain(1., 5., true);
        s.thermal = Some(ThermalFrame {
            pstr_w: Some(w),
            pressure: ThermalPressure::Nominal,
            ..Default::default()
        });
        l.apply(wrap(t, false, s));
    }
    assert_eq!(l.system_energy.joules, aj(15));
    assert_eq!(l.system_energy.seconds, ns(1));
    assert_eq!(l.system_history.len(), 2);
    assert_eq!(l.battery_j, 0);
}

#[test]
fn a_window_takes_the_part_inside_its_span() {
    let mut w = Window::empty();
    w.add(&Point { t: 10_000_000, dt: 4_000_000_000, w: Some(2_000_000_000) }, 7_000_000_000, 9_000_000_000);
    assert_eq!(w.seconds, ns(2));
    assert_eq!(w.joules, aj(4));
    assert_eq!(w.mean(), Some(2_000_000_000));
    w.add(&Point { t: 10_000_000, dt: 4_000_000_000, w: None }, 0, 20_000_000_000);
    assert_eq!(w.seconds, ns(2));
    assert_eq!(Window::empty().mean(), None);
}

#[test]
fn comparisons_describe_what_they_found() {
    let mut c = Comparison {
        t: 0,
        label: "dim".to_string(),
        before: Window { joules: aj(1200), seconds: ns(60) },
        after: Window { joules: aj(600), seconds: ns(59) },
    };
    assert_eq!(
        c.description(),
        "dim: 20.0 → 10.2 W (-9.8 W). Association; repeat to confirm."
    );
    c.after = Window { joules: aj(1500), seconds: ns(60) };
    assert_eq!(
        c.description(),
        "dim: 20.0 → 25.0 W (+5.0 W). Association; repeat to confirm."
    );
    c.after = Window { joules: 0, seconds: ns(12) };
    assert_eq!(
        c.description(),
        "dim: battery coverage before 60/60 s, after 12/60 s (15 s settling)."
    );
}

#[test]
fn the_report_says_what_was_recorded() {
    let mut l = Ledger::default();
    l.apply(sample(2., 2., 10., false, false));
    let mut s = plain(2., 20., false);
    s.procs.push(row("tool", None, Some(1_800_000_000_000), Some(50_000_000)));
    l.apply(wrap(4., false, s));
    l.apply(marker(4., "dim"));
    l.apply(Record::Context {
        timestamp: 0,
        elapsed_s: 0,
        assertions: "pid 1: PreventSleep".to_string(),
    });
    l.apply(Record::Notice { timestamp: 0, message: "careful".to_string() });
    l.apply(Record::Session {
        schema: 1,
        timestamp: 0,
        interval_s: 2_000_000,
        chip: "c".to_string(),
        model: "m".to_string(),
        recorder_pid: 7,
    });
    l.apply(Record::End { timestamp: 0 });
    assert_eq!(l.recorder_pid, 7);
    let expected = "Recorded 4s, 2 samples. Clean stop.\n\
Battery: 0.008 Wh / 2s observed on battery, mean 15.0 W, 0 gaps excluded.\n\
SMC system power: mean — W over 0s (also measured on AC).\n\
Peak interval: 15.0 W at +4s. Concurrent CPU users: tool 1800.00 CPU W\n\
\n\
CPU energy during recording (not whole-app battery energy):\n\
tool                             1.00000 CPU Wh       1.0 CPU s         20 wakeups\n\
\n\
Latest CPU energy coverage: 1/1 processes. Missing counters are unknown.\n\
\n\
Change +4s: dim: battery coverage before 2/60 s, after 0/60 s (15 s settling).\n\
\n\
Latest sleep assertions:\n\
pid 1: PreventSleep\n\
Notice: careful\n";
    assert_eq!(l.report(), expected);
}

#[test]
fn an_empty_report_claims_nothing() {
    let r = Ledger::default().report();
    assert!(r.starts_with("Recorded 0s, 0 samples. Live or interrupted recording.\nBattery: 0.000 Wh / 0s observed on battery, mean — W, 0 gaps excluded.\n"));
    assert!(!r.contains("Peak interval"));
}

#[test]
fn rank_prefers_measured_energy() {
    assert_eq!(row("a", None, Some(5_000_000), Some(100_000_000)).rank_mw(1_000_000_000), 5_000_000);
    assert_eq!(row("a", None, None, Some(50_000_000)).rank_mw(1_000_000_000), 500_000_000);
    assert_eq!(row("a", None, None, None).rank_mw(1_000_000_000), -1_000_000);
}

#[test]
fn pressure_levels_have_labels() {
    assert_eq!(ThermalPressure::Nominal.label(), "NOMINAL");
    assert_eq!(ThermalPressure::Fair.label(), "FAIR");
    assert_eq!(ThermalPressure::Serious.label(), "SERIOUS");
    assert_eq!(ThermalPressure::Critical.label(), "CRITICAL");
    assert_eq!(ThermalPressure::Unknown(77).label(), "UNKNOWN(77)");
    assert!(!ThermalPressure::Nominal.is_elevated());
    assert!(ThermalPressure::Unknown(0).is_elevated());
}

#[test]
fn replay_in_two_parts_is_replay_in_one() {
    let make = || {
        vec![
            sample(2., 2., 10., false, false),
            sample(4., 2., 20., false, false),
            marker(4., "x"),
            sample(6., 2., 30., false, false),
        ]
    };
    let mut one = Ledger::default();
    for r in make() {
        one.apply(r);
    }
    let mut two = Ledger::default();
    let mut records = make();
    let rest = records.split_off(2);
    for r in records {
        two.apply(r);
    }
    for r in rest {
        two.apply(r);
    }
    assert_eq!(one.report(), two.report());
    assert_eq!(one.battery_j, aj(80));
}
