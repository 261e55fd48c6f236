use battery::analysis::discharge;
use battery::inspection::Inspection;
use battery::ledger::Ledger;
use battery::record::{
    accept, frame, inspection_name, is_recording, latest, read, session_name, sessions,
    split_records, stack_name, Ending, Record,
};
use battery::types::{BatteryFrame, Sample};
use serde_json::Value;
use std::collections::VecDeque;
use std::io::Write;

fn session(schema: u32) -> Record {
    Record::Session {
        schema,
        timestamp: 0,
        interval_s: 2_000_000,
        chip: "chip".to_string(),
        model: "model".to_string(),
        recorder_pid: 1,
    }
}

/// The events of a session at ten watts, as they stand in a file.
const SESSION: &str = "{\"type\":\"session\",\"schema\":1,\"timestamp\":0.0,\"interval_s\":2.0,\"chip\":\"chip\",\"model\":\"model\",\"recorder_pid\":1}";
const SAMPLE: &str = "{\"type\":\"sample\",\"timestamp\":2.0,\"elapsed_s\":2.0,\"gap\":false,\"sampler_ms\":1.0,\"sample\":{\"dt\":{\"secs\":2,\"nanos\":0},\"battery\":{\"system_power_mw\":-10000.0,\"voltage_mv\":12000.0,\"instant_amperage_ma\":0.0,\"soc_percent\":0.0,\"temperature_c\":0.0,\"time_remaining_min\":null,\"is_charging\":false,\"external_connected\":false},\"soc\":null,\"thermal\":null,\"gpu\":null,\"io\":null,\"procs\":[]}}";
const INSPECTION: &str = "{\"type\":\"vm\",\"elapsed_s\":4.0,\"inspection\":{\"pid\":123,\"start_abstime\":42,\"started_at\":1.0,\"finished_at\":4.0,\"identity\":null,\"containers\":[],\"guest\":null,\"errors\":[\"guest unavailable\"]}}";

fn micros(v: &Value) -> i64 {
    (v.as_f64().unwrap() * 1e6) as i64
}

fn text(v: &Value) -> String {
    v.as_str().unwrap().to_string()
}

/// The event of a line, for the kinds of events that these tests write.
fn decode(line: &str) -> Result<Record, String> {
    let v: Value = serde_json::from_str(line).map_err(|e| e.to_string())?;
    match v["type"].as_str() {
        Some("session") => Ok(Record::Session {
            schema: v["schema"].as_u64().unwrap() as u32,
            timestamp: micros(&v["timestamp"]),
            interval_s: micros(&v["interval_s"]) as u64,
            chip: text(&v["chip"]),
            model: text(&v["model"]),
            recorder_pid: v["recorder_pid"].as_u64().unwrap() as u32,
        }),
        Some("sample") => {
            let s = &v["sample"];
            let b = &s["battery"];
            Ok(Record::Sample {
                timestamp: micros(&v["timestamp"]),
                elapsed_s: micros(&v["elapsed_s"]),
                gap: v["gap"].as_bool().unwrap(),
                sampler_ms: micros(&v["sampler_ms"]) as u64,
                sample: Box::new(Sample {
                    dt_ns: s["dt"]["secs"].as_u64().unwrap() * 1_000_000_000
                        + s["dt"]["nanos"].as_u64().unwrap(),
                    battery: Some(BatteryFrame {
                        system_power_mw: micros(&b["system_power_mw"]),
                        voltage_mv: micros(&b["voltage_mv"]),
                        instant_amperage_ma: micros(&b["instant_amperage_ma"]),
                        soc_percent: micros(&b["soc_percent"]),
                        temperature_c: micros(&b["temperature_c"]),
                        time_remaining_min: b["time_remaining_min"].as_i64(),
                        is_charging: b["is_charging"].as_bool().unwrap(),
                        external_connected: b["external_connected"].as_bool().unwrap(),
                    }),
                    soc: None,
                    thermal: None,
                    gpu: None,
                    io: None,
                    procs: vec![],
                }),
            })
        }
        Some("vm") => {
            let i = &v["inspection"];
            Ok(Record::Vm {
                elapsed_s: micros(&v["elapsed_s"]),
                inspection: Box::new(Inspection {
                    pid: i["pid"].as_i64().unwrap() as i32,
                    start_abstime: i["start_abstime"].as_u64(),
                    started_at: micros(&i["started_at"]),
                    finished_at: micros(&i["finished_at"]),
                    identity: None,
                    containers: i["containers"].as_array().map(|_| vec![]),
                    guest: None,
                    errors: i["errors"].as_array().unwrap().iter().map(text).collect(),
                }),
            })
        }
        _ => Err("unknown event".to_string()),
    }
}

fn replay(file: &[u8]) -> (Ledger, Result<usize, String>) {
    let recording = read(file);
    let parsed: VecDeque<Result<Record, String>> =
        recording.lines.iter().map(|l| decode(l)).collect();
    let (records, count) = accept(parsed, recording.ending);
    let mut ledger = Ledger::default();
    for r in records {
        ledger.apply(r);
    }
    (ledger, count)
}

#[test]
fn recording_roundtrip_and_interrupted_trailer() {
    let mut file: Vec<u8> = Vec::new();
    file.extend(frame(SESSION.as_bytes()).unwrap());
    file.extend(frame(SAMPLE.as_bytes()).unwrap());
    let mut gzip = flate2::write::GzEncoder::new(Vec::new(), flate2::Compression::fast());
    gzip.write_all(b"{\"type\":\"end\",\"timestamp\":0}\n").unwrap();
    let compressed = gzip.finish().unwrap();
    file.extend(&compressed[..compressed.len() / 2]);
    let recording = read(&file);
    assert_eq!(recording.lines, vec![format!("{SESSION}\n"), format!("{SAMPLE}\n")]);
    assert_eq!(recording.ending, Ending::PartialMember);
    let (ledger, count) = replay(&file);
    assert_eq!(count, Ok(2));
    assert_eq!(ledger.samples, 1);
    assert_eq!(ledger.recorder_pid, 1);
    assert_eq!(discharge(ledger.latest.as_ref().unwrap()), Some(10_000_000_000));
}

#[test]
fn a_recording_comes_to_the_same_ledger_again() {
    let lines = [SESSION, SAMPLE, SAMPLE, INSPECTION];
    let mut live = Ledger::default();
    let mut file: Vec<u8> = Vec::new();
    for line in lines {
        live.apply(decode(line).unwrap());
        file.extend(frame(line.as_bytes()).unwrap());
    }
    let (again, count) = replay(&file);
    assert_eq!(count, Ok(4));
    assert_eq!(again.battery_j, 20_000_000_000_000_000_000);
    assert_eq!(again.battery_j, live.battery_j);
    assert_eq!(again.report(), live.report());
}

#[test]
fn vm_inspection_survives_record_replay() {
    let (ledger, count) = replay(&frame(INSPECTION.as_bytes()).unwrap());
    assert_eq!(count, Ok(1));
    assert_eq!(ledger.vms[0].start_abstime, Some(42));
    assert!(ledger.report().contains("Host PID 123"));
    assert!(ledger.report().contains("guest unavailable"));
}

#[test]
fn a_member_is_compressed_and_starts_with_the_gzip_mark() {
    let line = vec![b'a'; 1000];
    let member = frame(&line).unwrap();
    assert_eq!(&member[..2], &[0x1f, 0x8b]);
    assert!(member.len() < 100);
    let recording = read(&member);
    assert_eq!(recording.lines.len(), 1);
    assert_eq!(recording.lines[0].len(), 1001);
    assert_eq!(recording.ending, Ending::Whole);
}

#[test]
fn every_event_written_is_read_back() {
    let mut file: Vec<u8> = Vec::new();
    let mut expected: Vec<String> = Vec::new();
    for i in 0..50 {
        let line = format!("{{\"n\":{i},\"s\":\"é…\"}}");
        file.extend(frame(line.as_bytes()).unwrap());
        expected.push(line + "\n");
    }
    let recording = read(&file);
    assert_eq!(recording.lines, expected);
    assert_eq!(recording.ending, Ending::Whole);
}

#[test]
fn a_cut_anywhere_in_the_last_member_keeps_the_others() {
    let first = frame("{\"a\":1}".as_bytes()).unwrap();
    let last = frame("{\"b\":\"é\"}".as_bytes()).unwrap();
    for cut in 1..last.len() {
        let mut file = first.clone();
        file.extend(&last[..cut]);
        let recording = read(&file);
        assert_eq!(recording.lines[0], "{\"a\":1}\n");
        assert!(recording.lines.len() <= 2);
        assert_eq!(recording.ending, Ending::PartialMember);
    }
}

#[test]
fn a_cut_behind_a_long_member_keeps_it_whole() {
    let long = vec![b'x'; 32_751];
    let first = frame(&long).unwrap();
    let last = frame(&vec![b'y'; 40_000]).unwrap();
    for cut in 1..last.len() {
        let mut file = first.clone();
        file.extend(&last[..cut]);
        let recording = read(&file);
        assert_eq!(recording.lines[0].len(), 32_752);
        assert!(recording.lines.len() <= 2);
        assert_eq!(recording.ending, Ending::PartialMember);
    }
}

#[test]
fn damage_is_an_error() {
    let mut file = frame(b"{}").unwrap();
    file.extend(b"not a member at all");
    let recording = read(&file);
    assert!(matches!(recording.ending, Ending::Damaged(_)));
    let (_, count) = accept(VecDeque::new(), recording.ending);
    assert!(count.is_err());
}

#[test]
fn plain_recordings_are_read_line_by_line() {
    let recording = read(b"{\"a\":1}\n{\"b\":2}\n{\"c\"");
    assert_eq!(recording.lines, vec!["{\"a\":1}\n".to_string(), "{\"b\":2}\n".to_string()]);
    assert_eq!(recording.ending, Ending::PartialRecord);
    let cut = read(b"{\"a\":1}\n{\"b\":\"\xc3");
    assert_eq!(cut.lines, vec!["{\"a\":1}\n".to_string()]);
    assert_eq!(cut.ending, Ending::PartialRecord);
    assert_eq!(read(b"").ending, Ending::Whole);
    assert_eq!(read(b"x\n").ending, Ending::Whole);
    assert_eq!(read(&[0x1f]).ending, Ending::PartialRecord);
}

#[test]
fn bytes_that_are_no_text_end_the_reading() {
    let recording = read(b"ok\n\xff\nlater\n");
    assert_eq!(recording.lines, vec!["ok\n".to_string()]);
    assert_eq!(recording.ending, Ending::NotText);
    let recording = split_records(b"ok\n\xff\n", Ok(true));
    assert_eq!(recording.ending, Ending::NotText);
    let recording = split_records(b"ok\n\xff", Ok(false));
    assert_eq!(recording.ending, Ending::PartialMember);
    let recording = split_records(b"ok\nmore", Err("broken".to_string()));
    assert_eq!(recording.ending, Ending::Damaged("broken".to_string()));
    let (_, count) = accept(VecDeque::new(), Ending::NotText);
    assert_eq!(count, Err("stream did not contain valid UTF-8".to_string()));
}

#[test]
fn corrupt_records_and_unknown_schemas_are_errors() {
    let parsed: VecDeque<Result<Record, String>> =
        VecDeque::from(vec![Ok(session(1)), Err("no record".to_string()), decode(SAMPLE)]);
    let (records, count) = accept(parsed, Ending::Whole);
    assert_eq!(records.len(), 1);
    assert_eq!(count, Err("record 2: no record".to_string()));
    let (records, count) = accept(VecDeque::from(vec![Ok(session(2))]), Ending::Whole);
    assert!(records.is_empty());
    assert_eq!(count, Err("Unsupported recording schema".to_string()));
    let (records, count) = accept(VecDeque::from(vec![Ok(session(1))]), Ending::PartialRecord);
    assert_eq!(records.len(), 1);
    assert_eq!(count, Ok(1));
}

#[test]
fn recordings_are_known_by_their_names() {
    assert!(is_recording("session-1-2.jsonl"));
    assert!(is_recording("session-1-2.jsonl.gz"));
    assert!(!is_recording("session-1-2.json"));
    assert!(!is_recording("vm-1-2.jsonl"));
    assert_eq!(session_name(1700, 42), "session-1700-42.jsonl.gz");
    assert!(is_recording(&session_name(0, 0)));
    assert_eq!(inspection_name(12, 99), "vm-12-99.json");
    assert_eq!(stack_name(12, 99), "stack-12-99.txt");
}

#[test]
fn the_latest_recording_has_the_last_name() {
    let names: Vec<String> = ["session-2.jsonl", "zzz", "session-3.jsonl.gz", "session-1.jsonl"]
        .iter()
        .map(|s| s.to_string())
        .collect();
    assert_eq!(latest(&names), Some(2));
    assert_eq!(latest(&vec!["x".to_string()]), None);
    assert_eq!(
        sessions(&names),
        vec![
            "session-1.jsonl".to_string(),
            "session-2.jsonl".to_string(),
            "session-3.jsonl.gz".to_string()
        ]
    );
}
