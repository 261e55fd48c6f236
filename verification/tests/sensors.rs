use battery::host::{chip, model};
use battery::samplers::agx::{submitter, AgxSampler, GpuPerformance, GpuProperties};
use battery::samplers::battery::{AppleSmartBatterySampler, BatteryProperties};
use battery::samplers::io::{read_counters, Counters, DiskStatistics, IoSampler};
use battery::samplers::ioreport::{
    accumulate_energy, classify_energy, energy_to_watts, is_subcomponent, soc_power, summarize_states, ChannelItem, IoReportSampler,
};
use battery::samplers::proc_rusage::{
    list_all_procs, process_start, procargs_exec_path, resolve_name as best_name, ProcEntry,
    ProcRusageSampler, Reading, Usage,
};
use battery::samplers::procname::{meaningful_basename, pidpath, resolve_name};
use battery::samplers::thermal::{
    answered, decode, discover_temp_keys, dump_float_keys, fourcc, key_count, key_name, read_flt,
    read_thermal_pressure, KeyInfo, SmcReadings, ThermalSamplerImpl,
};
use battery::sampler::Sampler;
use battery::types::{SocPower, ThermalPressure};

fn chars(s: &str) -> Vec<char> {
    s.chars().collect()
}

#[test]
fn energy_units_become_watts() {
    let second = 1_000_000_000;
    assert_eq!(energy_to_watts(1_000_000_000, &chars("nJ"), second), Some(1_000_000));
    assert_eq!(energy_to_watts(1_000_000, &chars("uJ"), second), Some(1_000_000));
    assert_eq!(energy_to_watts(1_000, &chars("mJ"), second), Some(1_000_000));
    assert_eq!(energy_to_watts(1, &chars("J"), second), Some(1_000_000));
    assert_eq!(energy_to_watts(1, &chars("J"), 2 * second), Some(500_000));
    assert_eq!(energy_to_watts(1, &chars("kJ"), second), None);
    assert_eq!(energy_to_watts(-1, &chars("J"), second), None);
}

fn channel(group: &str, name: &str, unit: &str, value: i64) -> ChannelItem {
    ChannelItem {
        group: group.to_string(),
        channel: name.to_string(),
        unit: unit.to_string(),
        value,
        states: vec![],
    }
}

fn states(group: &str, name: &str, list: &[(&str, i64)]) -> ChannelItem {
    let mut c = channel(group, name, "24Mticks", 0);
    c.states = list.iter().map(|(n, r)| (n.to_string(), *r)).collect();
    c
}

#[test]
fn each_joule_is_counted_once() {
    let items = vec![
        channel("Energy Model", "CPU Energy", " mJ ", 5_000),
        channel("Energy Model", "PCPU0", "mJ", 3_000),
        channel("Energy Model", "MCPU0DTL2b", "mJ", 2_000),
        channel("Energy Model", "GPU Energy", "nJ", 2_000_000_000),
        channel("Energy Model", "GPU", "mJ", 2_000),
        channel("Energy Model", "GPU_SRAM", "mJ", 100),
        channel("Energy Model", "DRAM", "mJ", 1_000),
        channel("Energy Model", "DISPEXT", "mJ", 500),
        channel("Energy Model", "ANE", "mJ", 250),
        channel("Energy Model", "ISP", "mJ", 125),
        channel("Other", "CPU Energy", "mJ", 9_000),
    ];
    let soc = soc_power(&items, 1_000_000_000).unwrap();
    assert_eq!(soc.cpu_w, Some(5_000_000));
    assert_eq!(soc.gpu_w, Some(2_000_000));
    assert_eq!(soc.dram_w, Some(1_000_000));
    assert_eq!(soc.display_w, Some(500_000));
    assert_eq!(soc.ane_w, Some(250_000));
    assert_eq!(soc.total_w, 8_875_000);
    assert_eq!(soc.cpu_active_residency, None);
}

#[test]
fn clusters_count_where_no_aggregate_is_published() {
    let items = vec![
        channel("Energy Model", "PCPU0", "mJ", 3_000),
        channel("Energy Model", "ECPU", "mJ", 1_000),
        channel("Energy Model", "GPU", "mJ", 2_000),
    ];
    let soc = soc_power(&items, 1_000_000_000).unwrap();
    assert_eq!(soc.cpu_w, Some(4_000_000));
    assert_eq!(soc.gpu_w, Some(2_000_000));
    assert_eq!(soc.total_w, 6_000_000);
    assert!(is_subcomponent("pcpu0", true, false));
    assert!(!is_subcomponent("pcpu0", false, false));
    assert!(is_subcomponent("GPU", false, true));
    assert!(!is_subcomponent("CPU Energy", true, true));
}

#[test]
fn a_core_is_counted_inside_its_cluster() {
    let items = vec![
        channel("Energy Model", "MCPU0", "mJ", 3_000),
        channel("Energy Model", "MCPU0_3", "mJ", 1_000),
        channel("Energy Model", "mcpu0_4", "mJ", 1_000),
        channel("Energy Model", "MCPM0", "mJ", 500),
    ];
    let soc = soc_power(&items, 1_000_000_000).unwrap();
    assert_eq!(soc.total_w, 3_500_000);
    assert_eq!(soc.cpu_w, Some(3_000_000));
    let mut soc = SocPower::default();
    accumulate_energy(
        &vec![("MCPU0".to_string(), 3_000_000), ("MCPU0_3".to_string(), 1_000_000)],
        &mut soc,
    );
    assert_eq!(soc.total_w, 3_000_000);
    assert_eq!(soc.cpu_w, Some(3_000_000));
    let mut soc = SocPower::default();
    accumulate_energy(
        &vec![
            ("MCPU0_2".to_string(), 1_000_000),
            ("MCPU0_3".to_string(), 1_000_000),
            ("MCPU1".to_string(), 1_000_000),
            ("MCPU1_x".to_string(), 1_000_000),
            ("ISP".to_string(), 1_000_000),
            ("ISP_1".to_string(), 1_000_000),
        ],
        &mut soc,
    );
    assert_eq!(soc.cpu_w, Some(4_000_000));
    assert_eq!(soc.total_w, 6_000_000);
}

#[test]
fn power_outside_the_named_blocks_is_given_back() {
    let mut soc = SocPower::default();
    assert_eq!(classify_energy("ISP", 5, &mut soc), 5);
    assert_eq!(soc, SocPower::default());
    assert_eq!(classify_energy("dcs0", 7, &mut soc), 0);
    assert_eq!(classify_energy("AMCC", 1, &mut soc), 0);
    assert_eq!(soc.dram_w, Some(8));
    assert_eq!(soc.total_w, 0);
}

#[test]
fn without_energy_channels_power_is_unknown() {
    let items = vec![channel("CPU Stats", "PCPU", "", 1), channel("Energy Model", "X", "?", 1)];
    assert_eq!(soc_power(&items, 1_000_000_000), None);
}

#[test]
fn residencies_give_the_busy_fraction() {
    let list = |v: &[(&str, i64)]| -> Vec<(String, i64)> {
        v.iter().map(|(n, r)| (n.to_string(), *r)).collect()
    };
    assert_eq!(
        summarize_states(&list(&[("IDLE", 50), ("V0P3", 25), ("V1P2", 25), ("V2P1", 0)])),
        (Some(500_000), Some(3))
    );
    assert_eq!(summarize_states(&list(&[("DOWN", 1), ("off", 2)])), (Some(0), None));
    assert_eq!(summarize_states(&list(&[])), (None, None));
    assert_eq!(summarize_states(&list(&[("P1", 0)])), (None, None));
    let items = vec![
        channel("Energy Model", "X", "J", 1),
        states("CPU Stats", "PCPU", &[("IDLE", 1), ("P1", 3)]),
        states("CPU Stats", "PCPU_IDLE", &[("P1", 100)]),
        states("CPU Stats", "ECPU", &[("P1", 100)]),
        states("GPU Stats", "GPUPH", &[("OFF", 3), ("P1", 1)]),
        states("GPU Stats", "GPU_IDLE", &[("P1", 100)]),
    ];
    let soc = soc_power(&items, 1_000_000_000).unwrap();
    assert_eq!(soc.cpu_active_residency, Some(750_000));
    assert_eq!(soc.gpu_active_residency, Some(250_000));
    assert_eq!(soc.cpu_top_pstate, Some(2));
    assert_eq!(soc.gpu_top_pstate, Some(2));
}

#[test]
fn the_first_power_sample_is_a_baseline() {
    let items = vec![channel("Energy Model", "CPU", "J", 4)];
    let mut s = IoReportSampler::new();
    assert_eq!(s.tick(1_000_000_000, Some(&items)), None);
    assert_eq!(s.tick(3_000_000_000, Some(&items)).unwrap().total_w, 2_000_000);
    assert_eq!(s.tick(4_000_000_000, None), None);
    assert_eq!(s.name(), "IOReport (Energy Model + CPU/GPU stats)");
}

#[test]
fn names_pass_over_versions() {
    assert_eq!(meaningful_basename("/opt/tool/versions/2.1.158").as_deref(), Some("tool"));
    assert_eq!(meaningful_basename("/opt/tool/bin/tool").as_deref(), Some("tool"));
    assert_eq!(meaningful_basename("/usr/bin/versions").as_deref(), Some("versions"));
    assert_eq!(meaningful_basename("/versions/1.0").as_deref(), Some("versions"));
    assert_eq!(meaningful_basename("/opt/tool/2.1.158").as_deref(), Some("tool"));
    assert_eq!(meaningful_basename("/usr/bin/top").as_deref(), Some("top"));
    assert_eq!(meaningful_basename("/1.2/3.4").as_deref(), Some("3.4"));
    assert_eq!(meaningful_basename("/123").as_deref(), Some("123"));
    assert_eq!(meaningful_basename("//"), None);
    assert_eq!(resolve_name(7, Some("/bin/sh")), "sh");
    assert_eq!(resolve_name(7, None), "pid 7");
    assert_eq!(resolve_name(-7, Some("/")), "pid -7");
    assert_eq!(pidpath(Some(b"/bin/sh\0junk".to_vec())).as_deref(), Some("/bin/sh"));
    assert_eq!(pidpath(Some(b"/bin/\xff".to_vec())).as_deref(), Some("/bin/\u{fffd}"));
    assert_eq!(pidpath(None), None);
}

#[test]
fn the_best_name_is_the_invoked_one() {
    let some = |s: &str| Some(s.to_string());
    assert_eq!(best_name(7, "comm", &some("/a/invoked"), &some("/a/path")), "invoked");
    assert_eq!(best_name(7, "comm", &None, &some("/a/path")), "path");
    assert_eq!(best_name(7, "comm", &None, &None), "comm");
    assert_eq!(best_name(7, "", &some("/"), &None), "pid 7");
    assert_eq!(best_name(7, "w", &None, &some("/opt/pid watcher")), "pid watcher");
}

#[test]
fn the_argument_block_holds_the_invoked_path() {
    assert_eq!(procargs_exec_path(Some(b"\x02\0\0\0/bin/sh\0sh\0".to_vec())).as_deref(), Some("/bin/sh"));
    assert_eq!(procargs_exec_path(Some(b"\x02\0\0\0".to_vec())), None);
    assert_eq!(procargs_exec_path(Some(b"\x02\0\0".to_vec())), None);
    assert_eq!(procargs_exec_path(None), None);
}

fn kinfo(pid: i32, ppid: i32, uid: u32, comm: &str) -> Vec<u8> {
    let mut e = vec![0u8; 648];
    e[40..44].copy_from_slice(&pid.to_le_bytes());
    e[243..243 + comm.len()].copy_from_slice(comm.as_bytes());
    e[420..424].copy_from_slice(&uid.to_le_bytes());
    e[560..564].copy_from_slice(&ppid.to_le_bytes());
    e
}

#[test]
fn the_kernel_list_is_read_entry_by_entry() {
    let mut buf = kinfo(1, 0, 0, "launchd");
    buf.extend(kinfo(0, 0, 0, "kernel"));
    buf.extend(kinfo(-3, 0, 0, "odd"));
    buf.extend(kinfo(70_000, 1, 501, "a-very-long-name1"));
    buf.extend(vec![1u8; 647]);
    let list = list_all_procs(&buf);
    assert_eq!(list.len(), 2);
    assert_eq!(
        list[0],
        ProcEntry { pid: 1, ppid: 0, uid: 0, comm: "launchd".to_string() }
    );
    assert_eq!(
        list[1],
        ProcEntry { pid: 70_000, ppid: 1, uid: 501, comm: "a-very-long-name1".to_string() }
    );
}

fn usage(start: u64, energy: u64) -> Usage {
    Usage {
        uuid: 9,
        start_abstime: start,
        phys_footprint: 4096,
        energy_nj: energy,
        disk_read: energy,
        disk_written: 2 * energy,
        idle_wakeups: 1,
        interrupt_wakeups: energy,
    }
}

fn reading(pid: i32, uid: u32, ticks: u64, u: Usage) -> Reading {
    Reading {
        entry: ProcEntry { pid, ppid: 1, uid, comm: "comm".to_string() },
        ticks: Some((ticks, ticks)),
        usage: Some(u),
        executable: Some("/bin/tool".to_string()),
        exec_path: None,
    }
}

#[test]
fn rates_need_two_ticks_of_the_same_process() {
    let mut s = ProcRusageSampler::new(501, 125, 3);
    let first = s.tick(0, &vec![reading(5, 501, 0, usage(1, 1_000_000_000))]);
    assert_eq!(first[0].energy_mw, None);
    assert_eq!(first[0].cpu_percent, None);
    assert_eq!(first[0].lifetime_energy_j, Some(1_000_000));
    assert_eq!(first[0].footprint_bytes, Some(4096));
    let rows = s.tick(2_000_000_000, &vec![reading(5, 501, 12_000_000, usage(1, 3_000_000_000))]);
    assert_eq!(rows[0].energy_mw, Some(1_000_000_000));
    assert_eq!(rows[0].cpu_percent, Some(50_000_000));
    assert_eq!(rows[0].disk_read_bps, Some(1_000_000_000_000_000));
    assert_eq!(rows[0].disk_write_bps, Some(2_000_000_000_000_000));
    assert_eq!(rows[0].wakeups_per_s, Some(1_000_000_000_000_000));
    assert_eq!(rows[0].name, "tool");
    assert!(rows[0].same_uid);
    assert_eq!(s.name(), "proc cpu+rusage");
}

#[test]
fn a_reused_number_starts_afresh() {
    let mut s = ProcRusageSampler::new(501, 1, 1);
    s.tick(0, &vec![reading(5, 501, 0, usage(1, 10))]);
    let mut again = reading(5, 501, 100, usage(2, 20));
    again.executable = Some("/bin/other".to_string());
    assert!(s.wants_name(&again));
    let rows = s.tick(1_000_000_000, &vec![again]);
    assert_eq!(rows[0].cpu_percent, None);
    assert_eq!(rows[0].energy_mw, None);
    assert_eq!(rows[0].name, "other");
}

#[test]
fn other_users_are_named_but_not_measured() {
    let mut s = ProcRusageSampler::new(501, 1, 1);
    s.tick(0, &vec![reading(5, 0, 0, usage(1, 10))]);
    let rows = s.tick(1_000_000_000, &vec![reading(5, 0, 100, usage(1, 20))]);
    assert!(!rows[0].same_uid);
    assert_eq!(rows[0].name, "tool");
    assert_eq!(rows[0].cpu_percent, None);
    assert_eq!(rows[0].energy_mw, None);
    assert_eq!(rows[0].lifetime_energy_j, None);
    assert_eq!(rows[0].start_abstime, None);
}

#[test]
fn names_are_kept_while_a_process_lives() {
    let mut s = ProcRusageSampler::new(501, 1, 1);
    s.tick(0, &vec![reading(5, 501, 0, usage(1, 10))]);
    let mut renamed = reading(5, 501, 0, usage(1, 10));
    renamed.executable = Some("/bin/new".to_string());
    assert!(!s.wants_name(&renamed));
    assert_eq!(s.tick(1, &vec![renamed])[0].name, "tool");
    s.tick(1, &vec![]);
    assert!(s.names.is_empty());
    assert!(s.prev_cpu.is_empty());
    assert!(s.prev_rusage.is_empty());
    assert_eq!(process_start(Some(usage(8, 0))), Some(8));
    assert_eq!(process_start(None), None);
}

#[test]
fn counters_become_rates() {
    let disks = vec![
        DiskStatistics {
            bytes_read: Some(10),
            bytes_written: Some(-5),
            reads: Some(1),
            writes: None,
        },
        DiskStatistics { bytes_read: Some(5), bytes_written: Some(7), reads: Some(2), writes: Some(3) },
    ];
    let mut message = vec![0u8; 160];
    message[0] = 160;
    message[3] = 0x12;
    message[32] = 6;
    message[96..104].copy_from_slice(&1_000_000u64.to_le_bytes());
    message[104..112].copy_from_slice(&0x0102_0304_0506_0708u64.to_le_bytes());
    let mut loopback = message.clone();
    loopback[32] = 0x18;
    let mut address = message.clone();
    address[3] = 0xc;
    let mut buf = Vec::new();
    buf.extend(&loopback);
    buf.extend(&message);
    buf.extend(&address);
    buf.extend(&message[..159]);
    let c = read_counters(&disks, &buf);
    assert_eq!(
        c,
        Counters {
            disk_read: 15,
            disk_write: 7,
            disk_ops: 6,
            net_rx: 1_000_000,
            net_tx: 0x0102_0304_0506_0708,
        }
    );
    let mut s = IoSampler::new();
    assert_eq!(s.tick(1_000_000_000, c), None);
    let next = Counters { disk_read: 25, disk_write: 0, disk_ops: 8, net_rx: 1_000_004, ..c };
    let f = s.tick(2_000_000_000, next).unwrap();
    assert_eq!(f.disk_read_bps, 5_000_000);
    assert_eq!(f.disk_write_bps, 0);
    assert_eq!(f.disk_iops, 1_000_000);
    assert_eq!(f.net_rx_bps, 2_000_000);
    assert_eq!(f.net_tx_bps, 0);
    assert_eq!(s.name(), "IOBlockStorageDriver + NET_RT_IFLIST2");
}

#[test]
fn a_message_without_length_ends_the_list() {
    let mut first = vec![0u8; 160];
    first[3] = 0x12;
    first[96] = 9;
    assert_eq!(read_counters(&vec![], &first).net_rx, 0);
    first[0] = 255;
    first[1] = 255;
    assert_eq!(read_counters(&vec![], &first).net_rx, 9);
}

#[test]
fn battery_power_is_voltage_times_current() {
    let mut s = AppleSmartBatterySampler::new();
    let p = BatteryProperties {
        voltage: Some(12_000_000_000),
        instant_amperage: Some(-661),
        amperage: Some(1),
        current_capacity: Some(83_000_000),
        temperature: Some(3_055_000_000),
        time_remaining: Some(65535),
        is_charging: None,
        external_connected: Some(true),
    };
    let f = s.read(Some(p)).unwrap();
    assert_eq!(f.system_power_mw, -7_932_000_000);
    assert_eq!(f.voltage_mv, 12_000_000_000);
    assert_eq!(f.instant_amperage_ma, -661_000_000);
    assert_eq!(f.soc_percent, 83_000_000);
    assert_eq!(f.temperature_c, 30_550_000);
    assert_eq!(f.time_remaining_min, None);
    assert!(!f.is_charging);
    assert!(f.external_connected);
    let averaged = BatteryProperties { instant_amperage: None, time_remaining: Some(90), ..p };
    let f = s.read(Some(averaged)).unwrap();
    assert_eq!(f.system_power_mw, 12_000_000);
    assert_eq!(f.time_remaining_min, Some(90));
    assert_eq!(s.read(Some(BatteryProperties { voltage: None, ..p })), None);
    assert_eq!(s.read(Some(BatteryProperties { instant_amperage: None, amperage: None, ..p })), None);
    assert_eq!(s.read(None), None);
    assert_eq!(s.name(), "AppleSmartBattery");
}

#[test]
fn the_gpu_names_its_last_submitter() {
    let mut s = AgxSampler::new();
    s.begin();
    s.poll(&Some(GpuProperties {
        last_submitter: Some(77),
        submitter_path: Some("/Applications/G.app/Contents/MacOS/G".to_string()),
        performance: Some(GpuPerformance { device_util: Some(40_000_000), in_use_memory: Some(-1) }),
    }));
    let f = s.finish();
    assert_eq!(f.top_submitter_pid, Some(77));
    assert_eq!(f.top_submitter_name.as_deref(), Some("G"));
    assert_eq!(f.top_submitter_hits, 1);
    assert_eq!(f.total_samples, 1);
    assert_eq!(f.device_util_pct, Some(40_000_000));
    assert_eq!(f.in_use_mem_bytes, Some(u64::MAX));
    assert_eq!(s.finish().total_samples, 0);
    s.poll(&None);
    assert_eq!(s.finish().total_samples, 0);
    assert_eq!(submitter(Some(0)), None);
    assert_eq!(submitter(Some(1 << 31)), None);
    assert_eq!(submitter(Some(5)), Some(5));
}

#[test]
fn keys_have_codes() {
    assert_eq!(fourcc(b"flt "), 0x666c_7420);
    assert_eq!(fourcc(b"#KEY"), u32::from_be_bytes(*b"#KEY"));
    assert_eq!(key_name(fourcc(b"Tp01")).as_deref(), Some("Tp01"));
    assert_eq!(key_name(0xffff_ffff), None);
    assert_eq!(key_count(&[0, 0, 1, 2, 9]), Some(258));
    assert_eq!(key_count(&[0, 0, 1]), None);
    assert!(answered(0, 0));
    assert!(!answered(0, 132));
    assert!(!answered(1, 0));
}

#[test]
fn floats_are_read_exactly() {
    for v in [0.0f32, 1.0, 42.5, 130.0, 0.1, 1e-3, 123456.79, 1e10, -3.25, -0.0, 1e-30, -1e-30] {
        let expected = ((v as f64) * 1e6).floor() as i64;
        assert_eq!(decode(v.to_bits()), Some(expected), "{v}");
    }
    assert_eq!(decode(f32::MAX.to_bits()), Some(i64::MAX));
    assert_eq!(decode(f32::MIN.to_bits()), Some(i64::MIN));
    assert_eq!(decode(f32::INFINITY.to_bits()), None);
    assert_eq!(decode(f32::NAN.to_bits()), None);
    let info = KeyInfo { data_size: 4, data_type: fourcc(b"flt "), data_attributes: 0 };
    assert_eq!(read_flt(&info, &42.5f32.to_le_bytes()), Some(42_500_000));
    assert_eq!(read_flt(&KeyInfo { data_size: 3, ..info }, &42.5f32.to_le_bytes()), None);
    assert_eq!(read_flt(&KeyInfo { data_type: 1, ..info }, &42.5f32.to_le_bytes()), None);
}

#[test]
fn sensors_are_found_by_their_readings() {
    let keys: Vec<(String, Option<i64>)> = vec![
        ("Tp01".to_string(), Some(50_000_000)),
        ("Tg02".to_string(), Some(130_000_000)),
        ("Te03".to_string(), Some(130_000_001)),
        ("Ts04".to_string(), None),
        ("PSTR".to_string(), Some(12_000_000)),
        ("Ts05".to_string(), Some(0)),
    ];
    let (cpu, gpu) = discover_temp_keys(&keys);
    assert_eq!(cpu, vec!["Tp01".to_string(), "Ts05".to_string()]);
    assert_eq!(gpu, vec!["Tg02".to_string()]);
    let s = ThermalSamplerImpl::new(Some(&keys));
    assert_eq!(s.cpu_keys.len(), 2);
    assert_eq!(ThermalSamplerImpl::new(None).cpu_keys.len(), 0);
    let floats = dump_float_keys(&keys);
    let names: Vec<&str> = floats.iter().map(|p| p.0.as_str()).collect();
    assert_eq!(names, vec!["PSTR", "Te03", "Tg02", "Tp01", "Ts05"]);
    assert_eq!(floats[0].1, 12_000_000);
}

#[test]
fn thermal_frames_summarize_the_sensors() {
    let mut s = ThermalSamplerImpl::new(None);
    let readings = SmcReadings {
        cpu: vec![Some(50_000_000), None, Some(61_000_001)],
        gpu: vec![Some(45_000_000)],
        system_w: Some(9_500_000),
    };
    let f = s.read(&Some(readings), Some(10));
    assert_eq!(f.cpu_die_max_c, Some(61_000_001));
    assert_eq!(f.cpu_die_mean_c, Some(55_500_000));
    assert_eq!(f.gpu_die_max_c, Some(45_000_000));
    assert_eq!(f.pstr_w, Some(9_500_000));
    assert_eq!(f.sensor_count, 3);
    assert_eq!(f.pressure, ThermalPressure::Fair);
    let none = s.read(&None, None);
    assert_eq!(none.cpu_die_max_c, None);
    assert_eq!(none.pressure, ThermalPressure::Unknown(u64::MAX));
    assert_eq!(s.name(), "AppleSMC + thermalpressure");
}

#[test]
fn pressure_states_are_not_contiguous() {
    assert_eq!(read_thermal_pressure(Some(0)), ThermalPressure::Nominal);
    assert_eq!(read_thermal_pressure(Some(1)), ThermalPressure::Fair);
    assert_eq!(read_thermal_pressure(Some(20)), ThermalPressure::Serious);
    assert_eq!(read_thermal_pressure(Some(3)), ThermalPressure::Critical);
    assert_eq!(read_thermal_pressure(Some(30)), ThermalPressure::Critical);
    assert_eq!(read_thermal_pressure(Some(4)), ThermalPressure::Unknown(4));
}

#[test]
fn the_host_has_a_name_or_a_placeholder() {
    assert_eq!(chip(Some(b"Apple M5 Pro\0".to_vec())), "Apple M5 Pro");
    assert_eq!(chip(None), "unknown SoC");
    assert_eq!(chip(Some(vec![0xff])), "unknown SoC");
    assert_eq!(model(Some(b"Mac17,8\0x".to_vec())), "Mac17,8");
    assert_eq!(model(None), "unknown model");
}
