use battery::command::{gave_up, outcome, remaining, waiting, Failure, Wait};
use battery::dashboard::{draw, Screen};
use battery::docker::Container;
use battery::inspection::{Guest, GuestProcess, Inspection};
use battery::ledger::Ledger;
use battery::record::Record;
use battery::screen::Tone;
use battery::session::{assertions_unavailable, find_machine, status_line, Action, Phase, Session};
use battery::types::{BatteryFrame, ProcRow, Sample};
use battery::ui::{current, Event, Input, KeyCode, View};

fn row(pid: i32, name: &str, energy: Option<u64>, cpu: Option<u64>) -> ProcRow {
    ProcRow {
        pid,
        ppid: 1,
        uid: 501,
        same_uid: true,
        start_abstime: Some(100),
        executable: None,
        footprint_bytes: Some(1_572_864),
        name: name.to_string(),
        cpu_percent: cpu,
        energy_mw: energy,
        lifetime_energy_j: None,
        disk_read_bps: None,
        disk_write_bps: None,
        wakeups_per_s: None,
    }
}

fn ledger(procs: Vec<ProcRow>) -> Ledger {
    let mut l = Ledger::default();
    l.apply(Record::Sample {
        timestamp: 2_000_000,
        elapsed_s: 2_000_000,
        gap: false,
        sampler_ms: 1_000_000,
        sample: Box::new(Sample {
            dt_ns: 2_000_000_000,
            battery: Some(BatteryFrame {
                voltage_mv: 12_000_000_000,
                system_power_mw: -10_000_000_000,
                ..Default::default()
            }),
            soc: None,
            thermal: None,
            gpu: None,
            io: None,
            procs,
        }),
    });
    l
}

fn press(code: KeyCode) -> Event {
    Event::Key { code, released: false, control: false }
}

fn texts(v: &[String]) -> Vec<&str> {
    v.iter().map(|s| s.as_str()).collect()
}

#[test]
fn dashboard_renders_in_small_and_large_terminals() {
    for (w, h) in [(40, 10), (80, 24), (160, 48)] {
        let ledger = ledger(vec![]);
        let screen = draw(&ledger, "test.jsonl", &mut View::default(), w, h, 0);
        match screen {
            Screen::Small(text) => {
                assert_eq!(w, 40);
                assert_eq!(text, "● RECORDING  0.000 Wh\nBattery — W (60s)\nEnlarge terminal to 65×20 for dashboard.\nq quit · m mark change\ntest.jsonl");
            }
            Screen::Host(d) => {
                assert_eq!(d.chart_height, if h == 24 { 4 } else { 7 });
                assert_eq!(d.evidence_height, 4);
                assert_eq!(d.path, " test.jsonl");
                assert_eq!(d.heading, "DUDE, WHERE'S MY BATTERY?   +2s   0.000 Wh observed");
                assert_eq!(
                    texts(&d.machine),
                    vec![
                        "Battery — W (60s) · 0.0% · on battery · SMC system — W",
                        "Chip: CPU — W · GPU — W · total — W · CPU —°C · unknown",
                        "CPU energy counters 0/0 · sampler 1ms · 0 gaps excluded",
                    ]
                );
                assert_eq!(d.curves.label, "12W");
                assert_eq!((d.curves.from, d.curves.to), (0, 2_000_000));
                assert!(d.list.rows.is_empty());
                assert_eq!(d.list.selected, None);
                assert_eq!(
                    texts(&d.evidence),
                    vec![
                        "m: mark one change → make it → wait 75s. Repeat to confirm.",
                        "Sleep blockers: ",
                    ]
                );
                assert!(d.footer.ends_with("AC and sleep gaps are excluded."));
            }
            Screen::Machine(_) => panic!("no machine was chosen"),
        }
    }
}

#[test]
fn processes_rank_by_energy_then_cpu() {
    let l = ledger(vec![
        row(1, "none", None, None),
        row(2, "cpu", None, Some(5)),
        row(3, "low", Some(1), None),
        row(4, "high", Some(9), None),
        row(5, "lower", Some(1), Some(2)),
    ]);
    let pids: Vec<i32> = current(&l).iter().map(|p| p.pid).collect();
    assert_eq!(pids, vec![4, 5, 3, 2, 1]);
}

#[test]
fn keys_move_the_selection() {
    let l = ledger(vec![row(1, "a", Some(2), None), row(2, "b", Some(1), None)]);
    let mut v = View::default();
    assert_eq!(v.event(press(KeyCode::Down), &l), Input::Nothing);
    assert_eq!((v.tree_selected, v.selected), (1, 1));
    v.event(press(KeyCode::Char('j')), &l);
    assert_eq!((v.tree_selected, v.selected), (2, 1));
    v.event(press(KeyCode::Char('G')), &l);
    assert_eq!(v.tree_selected, usize::MAX);
    let screen = draw(&l, "p", &mut v, 80, 24, 0);
    assert!(matches!(screen, Screen::Host(_)));
    assert_eq!(v.tree_selected, 1);
    v.event(press(KeyCode::Up), &l);
    assert_eq!((v.tree_selected, v.selected), (0, 0));
    v.event(press(KeyCode::PageDown), &l);
    assert_eq!(v.tree_selected, 10);
    v.event(press(KeyCode::PageUp), &l);
    assert_eq!(v.tree_selected, 0);
    v.event(press(KeyCode::Char('s')), &l);
    assert!(v.totals);
    v.event(press(KeyCode::Char('g')), &l);
    assert_eq!(v.tree_selected, 0);
}

#[test]
fn keys_that_quit() {
    let l = ledger(vec![]);
    let mut v = View::default();
    assert_eq!(v.event(press(KeyCode::Char('q')), &l), Input::Quit);
    assert_eq!(v.event(press(KeyCode::Esc), &l), Input::Quit);
    let c = Event::Key { code: KeyCode::Char('c'), released: false, control: true };
    v.event(press(KeyCode::Char('m')), &l);
    assert_eq!(v.event(c, &l), Input::Quit);
    let released = Event::Key { code: KeyCode::Char('q'), released: true, control: false };
    assert_eq!(v.event(released, &l), Input::Nothing);
    assert_eq!(v.event(Event::Other, &l), Input::Nothing);
}

#[test]
fn labels_are_typed_and_trimmed() {
    let l = ledger(vec![]);
    let mut v = View::default();
    v.event(press(KeyCode::Char('m')), &l);
    for c in " dimq x".chars() {
        assert_eq!(v.event(press(KeyCode::Char(c)), &l), Input::Nothing);
    }
    v.event(press(KeyCode::Backspace), &l);
    v.event(press(KeyCode::Char('\u{7}')), &l);
    assert_eq!(v.marker.as_deref(), Some(" dimq "));
    if let Screen::Host(d) = draw(&l, "p", &mut v, 80, 24, 0) {
        assert_eq!(d.footer, "Change:  dimq ▏  Enter save · Esc cancel (recording continues)");
    } else {
        panic!("the dashboard fits");
    }
    assert_eq!(v.event(press(KeyCode::Enter), &l), Input::Mark("dimq".to_string()));
    assert_eq!(v.marker, None);
    v.event(press(KeyCode::Char('m')), &l);
    assert_eq!(v.event(press(KeyCode::Enter), &l), Input::Nothing);
    v.event(press(KeyCode::Char('m')), &l);
    for _ in 0..300 {
        v.event(press(KeyCode::Char('é')), &l);
    }
    assert_eq!(v.marker.as_ref().unwrap().len(), 200);
    v.event(press(KeyCode::Esc), &l);
    assert_eq!(v.marker, None);
}

fn guest_process(name: &str, cpu: u64) -> GuestProcess {
    GuestProcess {
        pid: 77,
        ppid: 2,
        start_ticks: 0,
        name: name.to_string(),
        cpu_percent: cpu,
        rss_bytes: 2_097_152,
        container_id: None,
        cgroup: Some("/c".to_string()),
        probe: false,
    }
}

fn machine() -> Record {
    Record::Vm {
        elapsed_s: 0,
        inspection: Box::new(Inspection {
            pid: 9,
            start_abstime: Some(100),
            started_at: 0,
            finished_at: 1_000_000,
            identity: None,
            containers: Some(vec![Container {
                id: "i".to_string(),
                name: "db\u{7}".to_string(),
                image: "img".to_string(),
                project: None,
                service: Some("svc".to_string()),
                cpu_percent: None,
                memory: "1MiB".to_string(),
                net_io: "1B".to_string(),
                block_io: "2B".to_string(),
            }]),
            guest: Some(Guest {
                interval_s: 2_000_000,
                logical_cpus: None,
                busy_percent: Some(12_000_000),
                observed_processes: 3,
                measured_processes: 2,
                unreadable_cgroups: 0,
                processes: vec![
                    guest_process("busy", 1_000_000),
                    guest_process("idle", 999_999),
                    guest_process("idle", 0),
                ],
            }),
            errors: vec!["one".to_string(), "two".to_string()],
        }),
    }
}

#[test]
fn a_machine_expands_under_its_process() {
    let mut l = ledger(vec![row(8, "tool", Some(1), None), row(9, "vfkit", Some(2_000_000_000), Some(3_000_000))]);
    l.recorder_pid = 8;
    l.apply(machine());
    let mut v = View::default();
    let d = match draw(&l, "p", &mut v, 80, 24, 0) {
        Screen::Host(d) => d,
        _ => panic!("the dashboard fits"),
    };
    let rows: Vec<Vec<&str>> = d.list.rows.iter().map(|r| texts(&r.cells)).collect();
    assert_eq!(rows[0], vec!["9", "vfkit", "2.0", "3.0", "—", "1.5"]);
    assert_eq!(rows[1], vec!["", "  ↳ container db", "guest", "—", "", "1MiB"]);
    assert_eq!(rows[2], vec!["", "    ↳ busy", "Linux", "1.0", "", "2.0"]);
    assert_eq!(rows[3], vec!["", "    ↳ 2 idle Linux processes hidden (<1% CPU)", "Linux", "", "", ""]);
    assert_eq!(rows[4], vec!["8", "tool [recorder]", "0.0", "—", "—", "1.5"]);
    let tones: Vec<Tone> = d.list.rows.iter().map(|r| r.tone).collect();
    assert_eq!(tones, vec![Tone::Host, Tone::Container, Tone::Guest, Tone::Hidden, Tone::Host]);
    assert_eq!(d.list.selected, Some(0));
}

#[test]
fn every_guest_process_is_shown_or_counted() {
    let mut l = ledger(vec![row(9, "vfkit", Some(2), None)]);
    let mut record = machine();
    if let Record::Vm { inspection, .. } = &mut record {
        inspection.containers = None;
        let guest = inspection.guest.as_mut().unwrap();
        guest.processes = (0..28)
            .map(|i| guest_process("p", if i < 25 { 5_000_000 } else { 500_000 }))
            .collect();
    }
    l.apply(record);
    match draw(&l, "p", &mut View::default(), 80, 60, 0) {
        Screen::Host(d) => {
            let active = d.list.rows.iter().filter(|r| r.tone == Tone::Guest).count();
            assert_eq!(active, 25);
            assert_eq!(d.list.rows.len(), 27);
            assert_eq!(
                d.list.rows[26].cells[1],
                "    ↳ 3 idle Linux processes hidden (<1% CPU)"
            );
        }
        _ => panic!("the dashboard fits"),
    }
}

#[test]
fn enter_looks_into_a_machine() {
    let mut l = ledger(vec![row(9, "vfkit", Some(2), None)]);
    let mut v = View::default();
    assert_eq!(v.event(press(KeyCode::Enter), &l), Input::Dive);
    assert_eq!(v.vm_target, Some((9, Some(100))));
    match draw(&l, "p", &mut v, 80, 24, 0) {
        Screen::Machine(m) => {
            assert_eq!(m.heading, "● RECORDING · VM deep dive · host PID 9\np");
            assert!(m.list.is_none());
            assert_eq!(m.footer, "Esc back · q stop recording");
        }
        _ => panic!("a machine was chosen"),
    }
    l.apply(machine());
    v.event(press(KeyCode::Down), &l);
    match draw(&l, "p", &mut v, 80, 24, 6_000_000) {
        Screen::Machine(m) => {
            assert_eq!(m.status[0], "unidentified · refreshed 5s ago · refresh every 15s");
            assert_eq!(m.status[2], "Linux busy 12.0% of 0 vCPUs · process CPU coverage 2/3");
            let list = m.list.unwrap();
            assert_eq!(texts(&list.rows[0].cells), vec!["—", "db", "1MiB"]);
            assert_eq!(list.selected, Some(0));
            assert_eq!(
                texts(&m.details),
                vec![
                    "Image: img · Compose: — / svc",
                    "Network: 1B · disk: 2B (lifetime I/O totals)",
                    "one",
                ]
            );
        }
        _ => panic!("a machine was chosen"),
    }
    assert_eq!(v.vm_selected, 0);
    v.event(press(KeyCode::Tab), &l);
    match draw(&l, "p", &mut v, 80, 24, 0) {
        Screen::Machine(m) => {
            assert_eq!(m.status[0], "unidentified · refreshed 0s ago · refresh every 15s");
            let list = m.list.unwrap();
            assert_eq!(list.rows.len(), 3);
            assert_eq!(
                texts(&list.rows[0].cells),
                vec!["77", "1.0", "busy", "VM / unmapped cgroup", "2.0"]
            );
            assert_eq!(m.details[0], "busy · parent 2 · VM / unmapped cgroup");
            assert_eq!(m.details[1], "/c");
        }
        _ => panic!("a machine was chosen"),
    }
    assert_eq!(v.event(press(KeyCode::Char('d')), &l), Input::Dive);
    assert_eq!(v.event(press(KeyCode::Esc), &l), Input::Nothing);
    assert!(!v.vm_focus);
}

#[test]
fn details_show_the_selected_process_and_who_blocks_sleep() {
    let mut l = ledger(vec![row(3, "tool", Some(2), None)]);
    l.apply(Record::Context {
        timestamp: 0,
        elapsed_s: 0,
        assertions: "Listed:\n   pid 12(coreaudiod): PreventUserIdleSystemSleep named x\n   pid 5(x): Other\n".to_string(),
    });
    l.apply(Record::Notice { timestamp: 0, message: "note".to_string() });
    let mut v = View::default();
    assert_eq!(v.event(press(KeyCode::Enter), &l), Input::Nothing);
    assert!(v.detail);
    match draw(&l, "p", &mut v, 80, 40, 0) {
        Screen::Host(d) => {
            assert_eq!(d.chart_height, 0);
            assert_eq!(d.evidence_height, 7);
            assert_eq!(
                texts(&d.evidence),
                vec![
                    "tool · PID 3 · parent 1 · uid 501",
                    "Executable unavailable",
                    "Inspect: ./battery inspect 3",
                    "Sleep blockers: pid 12(coreaudiod)",
                    "GPU last submitter (hint only): unknown · busy —% · 0 sleep/delay gaps",
                ]
            );
            assert!(d.footer.ends_with("\nnote"));
        }
        _ => panic!("the dashboard fits"),
    }
}

#[test]
fn totals_list_the_groups() {
    let mut l = ledger(vec![]);
    l.apply(Record::Sample {
        timestamp: 4_000_000,
        elapsed_s: 4_000_000,
        gap: false,
        sampler_ms: 0,
        sample: Box::new(Sample {
            dt_ns: 2_000_000_000,
            battery: None,
            soc: None,
            thermal: None,
            gpu: None,
            io: None,
            procs: vec![row(3, "tool", Some(1_800_000_000_000), Some(100_000_000)), row(4, "cpu", None, Some(1))],
        }),
    });
    let mut v = View::default();
    v.event(press(KeyCode::Char('s')), &l);
    match draw(&l, "p", &mut v, 80, 24, 0) {
        Screen::Host(d) => {
            assert_eq!(texts(&d.list.rows[0].cells), vec!["tool", "1.00000", "2.0", "0", "0.0"]);
            assert_eq!(texts(&d.list.rows[1].cells), vec!["cpu", "—", "0.0", "0", "0.0"]);
            assert_eq!(d.list.headers[0], "APP / EXECUTABLE");
        }
        _ => panic!("the dashboard fits"),
    }
}

#[test]
fn late_samples_are_gaps() {
    let s = Session::new(2, None, 1_000_000, false);
    assert_eq!(s.interval(3_000_000), (false, 2_000_000_000));
    assert_eq!(s.interval(11_000_000), (false, 10_000_000_000));
    assert_eq!(s.interval(11_000_001), (true, 10_000_001_000));
    assert_eq!(s.interval(1_000_000), (true, 1_000_000));
    assert_eq!(s.interval(0), (true, 1_000_000));
    let slow = Session::new(60, None, 0, false);
    assert!(!slow.interval(180_000_000).0);
    assert!(slow.interval(180_000_001).0);
    assert_eq!(s.elapsed(3_500_000), 2_500_000);
}

const SECOND: u64 = 1_000_000_000;

#[test]
fn a_round_does_what_is_due_and_waits() {
    let mut s = Session::new(2, None, 0, true);
    assert_eq!(s.step(0, false, None), Action::Collect);
    assert_eq!(s.step(0, false, None), Action::Context);
    s.context_taken(SECOND);
    assert_eq!(s.step(0, false, None), Action::Draw);
    assert_eq!(s.step(0, false, None), Action::Poll);
    assert_eq!(s.phase, Phase::Check);
    assert_eq!(s.step(SECOND, false, None), Action::Collect);
    assert_eq!(s.step(SECOND, false, None), Action::Poll);
    assert_eq!(s.step(2 * SECOND, false, None), Action::Collect);
    assert_eq!(s.step(2 * SECOND, false, None), Action::Sample);
    s.sampled(2_000_000, 2 * SECOND, SECOND / 2);
    assert_eq!(s.next, 3 * SECOND + SECOND / 2);
    assert_eq!(s.last_wall, 2_000_000);
    assert_eq!(s.step(2 * SECOND, false, None), Action::Draw);
    assert_eq!(s.step(31 * SECOND, false, None), Action::Poll);
    assert_eq!(s.step(31 * SECOND, true, None), Action::Finish);
}

#[test]
fn a_session_without_a_screen_rests() {
    let mut s = Session::new(2, Some(5), 0, false);
    s.context_taken(0);
    assert_eq!(s.step(0, false, None), Action::Collect);
    assert_eq!(s.step(0, false, None), Action::Rest);
    assert_eq!(s.step(5 * SECOND, false, None), Action::Finish);
}

#[test]
fn inspections_are_started_one_by_one() {
    let target = Some((9, Some(1)));
    let mut s = Session::new(60, None, 0, false);
    s.context_taken(0);
    s.step(0, false, target);
    assert_eq!(s.step(0, false, target), Action::Inspect(9, Some(1)));
    assert_eq!(s.step(0, false, target), Action::Rest);
    s.step(SECOND, false, target);
    assert_eq!(s.step(SECOND, false, target), Action::Rest);
    s.inspected(2 * SECOND);
    s.step(16 * SECOND, false, target);
    assert_eq!(s.step(16 * SECOND, false, target), Action::Rest);
    s.asked(&Input::Dive, 3 * SECOND);
    s.step(3 * SECOND, false, target);
    assert_eq!(s.step(3 * SECOND, false, target), Action::Inspect(9, Some(1)));
}

#[test]
fn the_first_machine_is_looked_into() {
    let rows = vec![row(3, "tool", None, None), row(9, "vfkit", None, None), row(10, "vfkit", None, None)];
    assert_eq!(find_machine(&rows), Some((9, Some(100))));
    let mut s = Session::new(2, None, 0, false);
    assert_eq!(s.adopt(None, &rows, 7), Some((9, Some(100))));
    assert_eq!(s.vm_due, 7);
    assert_eq!(s.adopt(Some((1, None)), &rows, 8), Some((1, None)));
    assert_eq!(s.vm_due, 7);
}

#[test]
fn a_session_without_a_screen_says_where_it_is() {
    assert_eq!(
        status_line(&ledger(vec![])),
        "+    2s  battery — W  observed 0.0000 Wh  CPU counters 0/0"
    );
    assert_eq!(assertions_unavailable("x"), "Sleep assertions unavailable: x");
}

#[test]
fn programs_and_their_output_share_a_deadline() {
    assert_eq!(waiting(true, 10, 5, true), Wait::Exited);
    assert_eq!(waiting(false, 5, 5, false), Wait::GiveUp);
    assert_eq!(waiting(false, 1, 5, true), Wait::GiveUp);
    assert_eq!(waiting(false, 1, 5, false), Wait::Again);
    assert_eq!(remaining(2, 5), 3);
    assert_eq!(remaining(6, 5), 0);
    let ok = |s: &str| Some(Ok(s.to_string()));
    assert_eq!(outcome(true, "exit", ok("out"), ok("err")), Ok("out".to_string()));
    assert_eq!(
        outcome(false, "exit status: 1", ok("out"), ok("err ")),
        Err(Failure::Failed("exit status: 1: err out".to_string()))
    );
    assert_eq!(outcome(true, "", None, ok("")), Err(Failure::TimedOut("command output timed out".to_string())));
    assert_eq!(outcome(true, "", ok(""), None), Err(Failure::TimedOut("command errors timed out".to_string())));
    assert_eq!(outcome(true, "", Some(Err("a".to_string())), None), Err(Failure::Failed("a".to_string())));
    assert_eq!(outcome(true, "", ok(""), Some(Err("b".to_string()))), Err(Failure::Failed("b".to_string())));
    assert_eq!(
        gave_up(),
        Failure::TimedOut("command timed out or recording stopped".to_string())
    );
}
