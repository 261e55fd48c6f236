use battery::docker::{join_rows, parse_containers, Container, MetaRow, StatRow};
use battery::inspection::{
    docker_arguments, docker_program, docker_socket, guest_arguments, identity_from, inspect, DockerQuery, Guest,
    GuestProcess, Inspection, Probe,
};
use battery::ledger::Ledger;
use battery::percent::percent;
use battery::record::Record;
use battery::vm::{identify, is_vm, Identity};

#[test]
fn default_and_custom_colima_use_their_own_socket() {
    let default=identify("p1298\nn/Users/alice/.colima/_lima/colima/diffdisk\nn/Users/alice/.colima/_lima/colima/vz-efi").unwrap();
    assert_eq!(default.profile.as_deref(), Some("default"));
    assert_eq!(
        default.docker_socket.unwrap(),
        "/Users/alice/.colima/default/docker.sock"
    );
    let other = identify("n/Users/alice/.colima/_lima/colima-work/diffdisk").unwrap();
    assert_eq!(other.profile.as_deref(), Some("work"));
    assert_eq!(
        other.docker_socket.unwrap(),
        "/Users/alice/.colima/work/docker.sock"
    );
}

#[test]
fn shared_directory_and_ambiguous_disks_do_not_select_a_vm() {
    assert!(identify("n/Users/alice/.colima/default\nn/Users/alice/shared").is_none());
    assert!(identify("n/Users/alice/.colima/_lima/colima/diffdisk\nn/Users/alice/.colima/_lima/colima-other/diffdisk").is_none());
    assert!(identify("permission denied").is_none());
}

#[test]
fn docker_stats_preserve_unknowns_and_join_full_ids() {
    let rows = parse_containers(
        r#"{"ID":"aa","Name":"busy","CPUPerc":"195.6%","MemUsage":"500MiB / 8GiB"}
{"ID":"bb","Name":"unknown","CPUPerc":"--"}"#,
        r#"{"id":"aa","image":"worker:1","project":"prod","service":"indexer"}"#,
    )
    .unwrap();
    assert_eq!(rows[0].cpu_percent, Some(195_600_000));
    assert_eq!(rows[0].service.as_deref(), Some("indexer"));
    assert_eq!(rows[1].cpu_percent, None);
    assert!(parse_containers("bad json", "").is_err());
}

fn inspection() -> Inspection {
    Inspection {
        pid: 123,
        start_abstime: Some(42),
        started_at: 1_000_000,
        finished_at: 4_000_000,
        identity: None,
        containers: Some(vec![]),
        guest: None,
        errors: vec!["guest unavailable".to_string()],
    }
}

#[test]
fn the_order_of_open_files_does_not_matter() {
    let lines = [
        "p1298",
        "n/Users//alice/.colima/_lima/colima/diffdisk",
        "n/Users/alice/.colima/_lima/colima/vz-efi",
        "n/Users/alice/shared",
    ];
    let a = identify(&lines.join("\n")).unwrap();
    let mut turned = lines.to_vec();
    turned.reverse();
    turned.push("f12");
    let b = identify(&turned.join("\n")).unwrap();
    assert_eq!(a.tool, b.tool);
    assert_eq!(a.profile, b.profile);
    assert_eq!(a.instance, b.instance);
    assert_eq!(a.evidence, "/Users//alice/.colima/_lima/colima/diffdisk");
    assert_eq!(b.evidence, "/Users/alice/.colima/_lima/colima/vz-efi");
}

#[test]
fn the_latest_inspection_of_a_process_replaces_the_earlier_one() {
    let mut ledger = Ledger::default();
    for (pid, e) in [(123, "old"), (7, "other"), (123, "new")] {
        let mut v = inspection();
        v.pid = pid;
        v.errors = vec![e.to_string()];
        ledger.apply(Record::Vm { elapsed_s: 0, inspection: Box::new(v) });
    }
    assert_eq!(ledger.vms.len(), 2);
    assert_eq!(ledger.vms[0].errors[0], "new");
    assert_eq!(ledger.vms[1].errors[0], "other");
}

#[test]
fn a_container_row_joins_what_both_listings_say() {
    let rows = parse_containers(
        "\n{\"ID\":\"a\",\"Name\":\"n\",\"CPUPerc\":\" 1.5% \",\"MemUsage\":\"m\",\"NetIO\":\"x\",\"BlockIO\":\"y\"}\n  \n",
        "{\"id\":\"b\",\"image\":\"no\"}\n{\"id\":\"a\",\"image\":\"\",\"project\":\"p\"}",
    )
    .unwrap();
    assert_eq!(rows.len(), 1);
    assert_eq!(rows[0].id, "a");
    assert_eq!(rows[0].name, "n");
    assert_eq!(rows[0].image, "unknown");
    assert_eq!(rows[0].project.as_deref(), Some("p"));
    assert_eq!(rows[0].service, None);
    assert_eq!(rows[0].cpu_percent, Some(1_500_000));
    assert_eq!(rows[0].memory, "m");
    assert_eq!(rows[0].net_io, "x");
    assert_eq!(rows[0].block_io, "y");
}

#[test]
fn stats_without_an_id_are_refused() {
    let e = parse_containers("{\"Name\":\"n\"}", "").unwrap_err();
    assert_eq!(e, "Docker stats missing ID");
    let e = parse_containers("{\"ID\":1}", "").unwrap_err();
    assert_eq!(e, "Docker stats missing ID");
}

#[test]
fn rows_join_without_json() {
    let stat = |id: &str, cpu: &str| StatRow {
        id: Some(id.to_string()),
        name: Some(id.to_string()),
        cpu: Some(cpu.to_string()),
        memory: None,
        net_io: None,
        block_io: None,
    };
    let stats = vec![stat("a", "1%"), stat("b", "3%"), stat("c", "?"), stat("d", "3%")];
    let meta: Vec<MetaRow> = vec![];
    let rows = join_rows(&stats, &meta).unwrap();
    let names: Vec<&str> = rows.iter().map(|c| c.name.as_str()).collect();
    assert_eq!(names, vec!["b", "d", "a", "c"]);
    assert_eq!(rows[0].memory, "unknown");
}

#[test]
fn percentages_are_finite_and_not_negative() {
    assert_eq!(percent("195.6%"), Some(195_600_000));
    assert_eq!(percent(" 0.00% "), Some(0));
    assert_eq!(percent("1e2"), Some(100_000_000));
    assert_eq!(percent("--"), None);
    assert_eq!(percent("-1%"), None);
    assert_eq!(percent("inf%"), None);
    assert_eq!(percent("NaN"), None);
    assert_eq!(percent(""), None);
}

#[test]
fn virtual_machines_are_known_by_name_or_path() {
    assert!(is_vm("com.apple.VirtualMachine.Service", None));
    assert!(is_vm("qemu-system-aarch64", None));
    assert!(is_vm("vfkit", None));
    assert!(is_vm("x", Some("/System/Virtualization.framework/x")));
    assert!(!is_vm("vfkit2", Some("/usr/bin/vfkit2")));
}

#[test]
fn lima_and_desktop_machines_are_identified() {
    let lima = identify("n/Users/bob/.lima/dev/basedisk").unwrap();
    assert_eq!(lima.tool, "Lima");
    assert_eq!(lima.profile.as_deref(), Some("dev"));
    assert_eq!(lima.lima_home.as_deref(), Some("/Users/bob/.lima"));
    assert_eq!(lima.instance.as_deref(), Some("dev"));
    assert_eq!(lima.docker_socket.as_deref(), Some("/Users/bob/.lima/dev/sock/docker.sock"));
    assert_eq!(lima.evidence, "/Users/bob/.lima/dev/basedisk");
    let desktop =
        identify("n/Users/bob/Library/Containers/com.docker.docker/Data/vms/0/data/Docker.raw")
            .unwrap();
    assert_eq!(desktop.tool, "Docker Desktop");
    assert_eq!(desktop.docker_socket.as_deref(), Some("/Users/bob/.docker/run/docker.sock"));
    assert!(identify("n/Users/bob/.lima/_cache/basedisk").is_none());
    assert!(identify("n/Users/bob/.colima/_lima/strange/diffdisk").is_none());
}

fn identity() -> Identity {
    identify("n/Users/alice/.colima/_lima/colima/diffdisk").unwrap()
}

fn probe() -> Probe {
    Probe {
        started_at: 1,
        finished_at: 2,
        first_start: Some(42),
        last_start: Some(42),
        identity: Ok(identity()),
        containers: Ok(vec![]),
        guest: Err("no python".to_string()),
    }
}

#[test]
fn a_probe_keeps_what_it_found() {
    let v = inspect(9, Some(42), probe());
    assert_eq!(v.pid, 9);
    assert_eq!(v.start_abstime, Some(42));
    assert!(v.identity.is_some());
    assert_eq!(v.containers, Some(vec![]));
    assert_eq!(v.guest, None);
    assert_eq!(v.errors, vec!["Guest: no python".to_string()]);
}

#[test]
fn a_replaced_process_is_not_probed() {
    let v = inspect(9, Some(41), probe());
    assert_eq!(v.start_abstime, Some(41));
    assert!(v.identity.is_none());
    assert_eq!(
        v.errors,
        vec!["Process exited or PID was reused; select the current VM again".to_string()]
    );
}

#[test]
fn results_of_a_process_that_changed_are_discarded() {
    let mut p = probe();
    p.last_start = None;
    p.containers = Err("down".to_string());
    let v = inspect(9, None, p);
    assert_eq!(v.containers, None);
    assert_eq!(
        v.errors,
        vec![
            "Containers: down".to_string(),
            "Guest: no python".to_string(),
            "VM process changed while probing; results discarded".to_string()
        ]
    );
}

#[test]
fn a_listing_without_a_machine_names_none() {
    assert_eq!(identity_from(Err("denied".to_string())).unwrap_err(), "denied");
    assert_eq!(
        identity_from(Ok("n/tmp".to_string())).unwrap_err(),
        "Could not uniquely identify this VM from its open disk files; no default Docker context was queried"
    );
    assert!(identity_from(Ok("n/Users/alice/.lima/x/diffdisk".to_string())).is_ok());
}

#[test]
fn probes_name_the_machine_they_ask() {
    let id = identity();
    let socket = docker_socket(&id, true).unwrap();
    let (program, unset) = docker_program();
    assert_eq!(program, "docker");
    assert_eq!(
        unset,
        vec!["DOCKER_CONTEXT", "DOCKER_HOST", "DOCKER_TLS_VERIFY", "DOCKER_CERT_PATH"]
    );
    let words = docker_arguments(&socket, DockerQuery::Statistics);
    assert_eq!(words[0], "--host");
    assert_eq!(words[1], "unix:///Users/alice/.colima/default/docker.sock");
    assert_eq!(words[2], "stats");
    let words = docker_arguments(&socket, DockerQuery::Metadata);
    assert_eq!(words[2], "ps");
    assert_eq!(
        docker_socket(&id, false).unwrap_err(),
        "No Docker socket for this VM; container usage unknown"
    );
    let (home, words) = guest_arguments(&id, "script").unwrap();
    assert_eq!(home, "/Users/alice/.colima/_lima");
    assert_eq!(words, vec!["shell", "colima", "--", "python3", "-c", "script"]);
}

fn container(id: &str, name: &str) -> Container {
    Container {
        id: id.to_string(),
        name: name.to_string(),
        image: "img".to_string(),
        project: Some("p".to_string()),
        service: None,
        cpu_percent: Some(12_340_000),
        memory: "1MiB".to_string(),
        net_io: "n".to_string(),
        block_io: "b".to_string(),
    }
}

fn process(id: Option<&str>, cgroup: Option<&str>) -> GuestProcess {
    GuestProcess {
        pid: 5,
        ppid: 1,
        start_ticks: 0,
        name: "work".to_string(),
        cpu_percent: 99_950_000,
        rss_bytes: 1_048_576,
        container_id: id.map(|s| s.to_string()),
        cgroup: cgroup.map(|s| s.to_string()),
        probe: true,
    }
}

#[test]
fn guest_processes_have_owners() {
    let mut v = inspection();
    v.containers = Some(vec![container("0123456789abcdef", "db")]);
    assert_eq!(v.owner(&process(Some("0123456789abcdef"), None)), "db");
    assert_eq!(v.owner(&process(Some("fedcba9876543210"), None)), "container fedcba987654");
    assert_eq!(v.owner(&process(None, Some("/x"))), "VM / unmapped cgroup");
    assert_eq!(v.owner(&process(None, None)), "unknown (cgroup unreadable)");
}

#[test]
fn an_inspection_reports_its_parts() {
    let mut v = inspection();
    v.identity = Some(identity());
    v.containers = Some(vec![container("0123456789abcdef", "db")]);
    v.guest = Some(Guest {
        interval_s: 2_000_000,
        logical_cpus: Some(4),
        busy_percent: Some(50_000_000),
        observed_processes: 3,
        measured_processes: 2,
        unreadable_cgroups: 1,
        processes: vec![process(Some("0123456789abcdef"), None)],
    });
    assert_eq!(
        v.report(),
        "Host PID 123 → colima / default\n\
Evidence: /Users/alice/.colima/_lima/colima/diffdisk\n\
CPU percentages below are guest CPU load (100% = one logical CPU), not measured container watts.\n\
\nContainers (Docker interval; separate from guest process interval):\n   \
12.3%  db  RAM 1MiB\n          image=img  compose=p/—\n\
\nLinux processes over 2.00s; 2/3 measured; 1 unreadable cgroups; system busy 50.0% of 4 vCPUs:\n       \
5   100.0%  work                     db [probe]\n\
\nUnavailable: guest unavailable\n"
    );
}
